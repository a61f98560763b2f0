//! The Huffman code for strings.
pub mod code;
pub mod decoder;
pub mod encoder;
pub mod peek;
pub mod slice;
pub mod table;
pub mod validate;

pub use crate::huffman::decoder::decode;
pub use crate::huffman::encoder::encode;
pub use crate::huffman::slice::decode_to_slice;
pub use crate::huffman::validate::{validate_header_name, validate_header_value};
