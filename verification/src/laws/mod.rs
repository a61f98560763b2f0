//! What holds of the library as a whole.
pub mod arena;
pub mod bits;
pub mod block;
pub mod code_table;
pub mod decoder;
pub mod headers;
pub mod huffman;
pub mod integer;
pub mod literals;
pub mod representation;
pub mod room;
pub mod sequence;
pub mod static_table;
pub mod table;
pub mod wire;
