//! The binary tag format: its kinds, its byte cursor and its tag trees.

pub mod cursor;
pub mod decode;
pub mod encode;
pub mod error;
pub mod kind;
pub mod parse;
pub mod render;
pub mod roundtrip;
pub mod tag;
pub mod text;
pub mod value;
pub mod wire;

pub use cursor::{NbtReader, NbtWriter};
pub use error::NbtError;
pub use kind::TagKind;
pub use tag::{NbtTag, NbtTree, TagData};
