//! Verified core of a radio-scanner log pipeline: parsing of two textual log
//! formats into structured transmission records, run-length consolidation of
//! adjacent same-identity records, a day-sharded transcript lookup index with
//! fallback, field-equality filtering, and tabular row formatting.
use vstd::prelude::*;

pub mod cli;
pub mod csv_out;
pub mod datetime;
pub mod errors;
pub mod event_stream;
pub mod filter;
pub mod model;
pub mod record_match;
pub mod rle_filter;
pub mod srt_stream;
pub mod text;
pub mod transcriber;
pub mod transcription_adder;

verus! {

} // verus!
