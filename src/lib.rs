//! A verified codec for the PNG chunk stream: chunk types with their flag
//! bits, CRC-protected chunks, and the container that frames them behind the
//! PNG signature.
pub mod checksum;
pub mod chunk;
pub mod chunk_type;
pub mod commands;
pub mod endian;
pub mod error;
pub mod png;
pub mod text;
