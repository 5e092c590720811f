//! `ncrawler`: a two-phase scrape -> build toolkit for observability surfaces.

pub mod ai;
pub mod artifact;
pub mod cli;
pub mod collect;
pub mod digest;
pub mod error;
pub mod grafana;
pub mod json;
pub mod json_laws;
pub mod listing_laws;
pub mod masking;
pub mod order;
pub mod output_laws;
pub mod path;
pub mod redact;
pub mod redact_laws;
pub mod report_md;
pub mod secrets;
pub mod sidecar;
pub mod since;
pub mod since_laws;
pub mod store;
pub mod store_laws;
pub mod text;
pub mod text_laws;
pub mod time;
pub mod vector;
pub mod view_laws;
