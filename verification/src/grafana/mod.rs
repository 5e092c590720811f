//! Deterministic offline Grafana reports.

pub mod audit;
pub mod audit_laws;
pub mod fingerprint;
pub mod fingerprint_laws;
pub mod laws;
pub mod model;
pub mod model_laws;
pub mod options;
pub mod render;
pub mod render_laws;
pub mod report;
pub mod report_laws;
pub mod sql;
