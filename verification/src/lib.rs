//! Streaming parse-and-aggregate pipeline for a comma-delimited event log.
//!
//! The input is one header row followed by data rows. Rows whose `Source`
//! field equals the sentinel `ToClnt` are aggregated per product: a record
//! count, directional (`Buy`/`Sell`) counts, and a running sum of the maximum
//! of the three quantity fields.

pub mod accum;
pub mod agg;
pub mod bytes;
pub mod columns;
pub mod errors;
pub mod laws;
pub mod names;
pub mod parse;
pub mod reader;
pub mod render;
pub mod table;
pub mod tokenize;
