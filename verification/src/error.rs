//! Why a header block is refused.
use vstd::prelude::*;

verus! {

/// An error in a header block.
#[derive(Debug, Clone, Copy, PartialEq, Eq, Structural)]
pub enum DecoderError {
    /// An index beyond the static and the dynamic table, or zero.
    InvalidTableIndex,
    /// Bytes that the Huffman code does not end where they end.
    InvalidHuffmanCode,
    /// A name or a value that holds bytes it must not hold.
    InvalidUtf8,
    /// A status that is not three digits from 100 on.
    InvalidStatusCode,
    /// A name that starts with a colon and is not a known pseudo-header.
    InvalidPseudoheader,
    /// A table size update that is too large or comes too late.
    InvalidMaxDynamicSize,
    /// An integer with too many bytes.
    IntegerOverflow,
    /// The block ends too early.
    NeedMore(NeedMore),
}

/// What was cut off where a block ends too early.
#[derive(Debug, Clone, Copy, PartialEq, Eq, Structural)]
pub enum NeedMore {
    /// The whole next item.
    UnexpectedEndOfStream,
    /// An integer.
    IntegerUnderflow,
    /// A string.
    StringUnderflow,
}

} // verus!
