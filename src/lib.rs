//! Chunk-level reading and writing of PNG streams, used to hide text
//! messages inside chunks of a chosen type and to read or remove them again.
pub mod args;
pub mod be_bytes;
pub mod chunk;
pub mod chunk_type;
pub mod commands;
pub mod error;
pub mod png;
pub mod text;

pub use chunk::Chunk;
pub use chunk_type::ChunkType;
pub use error::PngError;
pub use png::Png;
