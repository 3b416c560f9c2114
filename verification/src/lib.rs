//! Decoder for precompiled Lua 5.3 style binary chunks.

pub mod binary_chunk;
pub mod bounds;
pub mod encode;
pub mod error;
pub mod format;
pub mod laws;
pub mod reader;
pub mod rejection;
pub mod roundtrip;
pub mod truncation;
