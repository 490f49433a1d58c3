//! A zero-copy, allocation-free decoder for the Protocol Buffers wire format.
//!
//! The decoder walks a byte buffer field by field, without a schema. Every
//! value it hands out borrows from the buffer it was given.

pub mod endian;
pub mod field;
pub mod leb128;
pub mod message;
pub mod message_iter;
pub mod packed;
pub mod parse;
pub mod parse_message;
pub mod value32;
pub mod value64;
pub mod varint;
pub mod wire;
pub mod zigzag;

pub use field::Field;
pub use message_iter::{ByTag, MessageIter};
