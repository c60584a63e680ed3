//! Hide, read back and remove messages in the chunks of a PNG container.
//!
//! The crate is a chunk codec: it splits a byte buffer into typed,
//! length-prefixed, checksummed chunks, checks each of them, edits the
//! sequence and writes it back byte for byte. Reading and writing files or
//! fetching a buffer over the network is left to the caller.

pub mod error;
pub mod utils;
pub mod text;
pub mod chunk_type;
pub mod checksum;
pub mod chunk;
pub mod png;
pub mod commands;

pub use crate::error::PngError;
