//! A codec for the PNG chunk layout: chunk-type codes and their flag bits,
//! checksummed chunks, and the container of an eight-byte signature followed
//! by a sequence of chunks.

pub mod chunk;
pub mod chunk_type;
pub mod commands;
pub mod error;
pub mod png;
mod utf8;
pub mod wire;
