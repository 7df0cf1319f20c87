//! Reading, checking and rewriting the typed, checksummed records ("chunks")
//! of a PNG file, with every operation proved against a byte-level model.

pub mod chunk;
pub mod commands;
pub mod chunk_type;
pub mod png;
pub mod text;
