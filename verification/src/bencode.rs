//! The bencode codec: values, the grammar that relates them to bytes, a
//! decoder and a canonical encoder.

pub mod decode;
pub mod digits;
pub mod encode;
pub mod grammar;
pub mod laws;
pub mod value;
