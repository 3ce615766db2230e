//! A binary codec for the PNG chunk container format: 4-byte chunk type
//! codes with property bits, single chunks with CRC-32 integrity checking,
//! and a whole-file container supporting lookup, append and removal.

pub mod bytes;
pub mod checksum;
pub mod chunk;
pub mod chunk_type;
pub mod png;
