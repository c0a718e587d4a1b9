//! Storage of sequenced bytes.
pub mod assembler;
pub mod ring_buffer;
