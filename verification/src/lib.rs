//! A verified core for two small command-line tools: a line-printing file
//! viewer and a flat-file todo store of sequence-numbered records.
//!
//! Everything here works on plain values: file contents arrive as bytes and
//! command lines as argument vectors; the functions hand back the bytes to
//! write, the records to show, or the error to report. Opening, reading and
//! writing files is left to the thin unverified front end.

pub mod command;
pub mod digits;
pub mod record;
pub mod store;
pub mod laws;
pub mod lines;
