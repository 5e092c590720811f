//! The vector builder: chunk items, embed each chunk, and upsert the records
//! keyed on source, target and item.

pub mod backend;
pub mod chunk;
pub mod embed;
pub mod error;
pub mod laws;
pub mod memory;
pub mod pipeline;
pub mod record;
pub mod uri;
