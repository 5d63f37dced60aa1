//! Tasks kept as checkbox lines in a plain text file: parsing, stable
//! addressing of a task across edits, and single-line rewrites that leave the
//! rest of the text untouched.

pub mod chars;
pub mod config;
pub mod date;
pub mod display;
pub mod document;
pub mod edits;
pub mod file_laws;
pub mod laws;
pub mod line;
pub mod reader;
pub mod record;
pub mod roundtrip;
pub mod sorting;
pub mod tags;
