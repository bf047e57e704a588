//! Split a JSON document into one file per element of a nested array.
//!
//! The library models JSON documents as [`value::JsonValue`] trees, resolves
//! dotted key paths through them, serializes values back to JSON text
//! (compact or pretty), derives output file names, and enforces the
//! run-wide ID collision policy.  Parsing document text into the model
//! leans on serde_json behind a small trusted boundary; file reading and
//! writing stay with the caller.

pub mod error;
pub mod name;
pub mod parse;
pub mod path;
pub mod render;
pub mod split;
pub mod value;
