//! Decoding of compressed HTTP/2 header blocks (HPACK).
//!
//! [`FastDecoder`] reads a block, keeps the dynamic table, and makes the headers.
//! [`huffman`] holds the string code, with two decoders and the encoder.
//!
//! What a block means is said in [`block`], what the table is in [`dyn_table`],
//! and what a header is in [`headers`]; the contracts of the functions refer to
//! these. [`laws`] states what holds of the library as a whole. The functions of
//! `bytes`, `http` and `std` that are called, and what is taken on trust of them,
//! are in [`buffers`] and [`http_types`].
pub mod arena;
pub mod bits;
pub mod block;
pub mod buffers;
pub mod dyn_table;
pub mod error;
pub mod fast_decoder;
pub mod headers;
pub mod hpack_decode;
pub mod http_types;
pub mod huffman;
pub mod integer;
pub mod laws;
pub mod materialize;
pub mod sink;
pub mod static_table;

pub use crate::error::{DecoderError, NeedMore};
pub use crate::fast_decoder::FastDecoder;
pub use crate::headers::{BytesStr, Header};
pub use crate::hpack_decode::HpackDecode;
