//! Encoding and decoding of a length-prefixed binary tag format, and a builder
//! for block structure files laid out in that format.

pub mod layout;
pub mod nbt;
pub mod seqs;
pub mod structure;
pub mod types;
