//! What is found again of the strings in a buffer.
use crate::arena;
use crate::arena::{DecodedHeader, RawHeader};
use crate::bits;
use crate::dyn_table::DynEntry;
use crate::huffman::code;
use crate::huffman::slice;
use vstd::prelude::*;

verus! {

/// A region has the low 32 bits of the place and the low 16 bits of the length.
pub proof fn law_region(start: nat, len: nat)
    ensures
        arena::region(start, len).0 == start % 4294967296,
        arena::region(start, len).1 == len % 65536,
{
}

/// The bytes at an offset are those of the buffer from there on.
pub proof fn law_bytes_at(buffer: Seq<u8>, offset: u32, len: u16)
    requires
        offset + len <= buffer.len(),
    ensures
        arena::bytes_at(buffer, offset, len).len() == len,
        forall|i: int|
            0 <= i < len ==> #[trigger] arena::bytes_at(buffer, offset, len)[i] == buffer[offset + i],
{
}

/// What is found again of a string: as many of its bytes as its length has in 16 bits,
/// from its place in 32 bits on.
pub proof fn law_kept(before: Seq<u8>, text: Seq<u8>)
    ensures
        arena::kept(before, text).len() == text.len() % 65536,
        forall|i: int|
            0 <= i < text.len() % 65536 ==> #[trigger] arena::kept(before, text)[i] == (before
                + text)[(before.len() % 4294967296) as int + i],
        before.len() < 4294967296 ==> arena::kept(before, text) == text.take(
            (text.len() % 65536) as int,
        ),
{
    arena::lemma_kept(before, text, Seq::empty());
    if before.len() < 4294967296 {
        assert(arena::kept(before, text) =~= text.take((text.len() % 65536) as int));
    }
}

/// A header that was read refers to an entry of the static table, or to its strings in
/// the arena.
pub proof fn law_raw(
    arena: Seq<u8>,
    idx: u8,
    name_offset: u32,
    name_len: u16,
    value_offset: u32,
    value_len: u16,
)
    ensures
        DecodedHeader::StaticFull(idx).raw(arena) == RawHeader::Entry(idx as int),
        (DecodedHeader::StaticName { static_idx: idx, value_offset, value_len }).raw(arena) == (
        RawHeader::Named {
            idx: idx as int,
            value: arena.subrange(value_offset as int, value_offset + value_len),
        }),
        (DecodedHeader::Arena { name_offset, name_len, value_offset, value_len }).raw(arena) == (
        RawHeader::Literal {
            name: arena.subrange(name_offset as int, name_offset + name_len),
            value: arena.subrange(value_offset as int, value_offset + value_len),
        }),
{
}

/// A header lies in the arena if its strings do, or if its index is one of the static
/// table.
pub proof fn law_within(
    arena: Seq<u8>,
    idx: u8,
    name_offset: u32,
    name_len: u16,
    value_offset: u32,
    value_len: u16,
)
    ensures
        1 <= idx <= 61 ==> DecodedHeader::StaticFull(idx).within(arena),
        value_offset + value_len <= arena.len() ==> (DecodedHeader::StaticName {
            static_idx: idx,
            value_offset,
            value_len,
        }).within(arena),
        name_offset + name_len <= arena.len() && value_offset + value_len <= arena.len() ==> (
        DecodedHeader::Arena { name_offset, name_len, value_offset, value_len }).within(arena),
{
}

/// An entry of the dynamic table has its name and its value in the log.
pub proof fn law_entry(entry: DynEntry, log: Seq<u8>)
    ensures
        entry.read(log).name == log.subrange(
            entry.name_start as int,
            entry.name_start + entry.name_len,
        ),
        entry.read(log).value == log.subrange(
            entry.value_start as int,
            entry.value_start + entry.value_len,
        ),
        entry.read(log).size == entry.entry_size,
        entry.within(log) <==> entry.name_start + entry.name_len <= log.len() && entry.value_start
            + entry.value_len <= log.len(),
{
}

/// What decoding leaves in the arena: the string; or, if there is none, twice as many
/// bytes as the input had, which begin with the symbols that were read, and are zeros
/// from there on.
pub proof fn law_decoding_leaves(src: Seq<u8>)
    ensures
        ({
            let left = arena::decoding_leaves(src);
            let symbols = code::read(bits::bits_of(src)).symbols;
            &&& slice::is_accepted(src) ==> left == symbols
            &&& !slice::is_accepted(src) ==> {
                &&& left.len() == 2 * src.len()
                &&& symbols.is_prefix_of(left)
                &&& forall|i: int| symbols.len() <= i < left.len() ==> #[trigger] left[i] == 0
            }
        }),
{
    code::lemma_symbols_len(src);
}

/// An offset of 32 bits can tell where a string starts below 2^32; of an empty string
/// it need not.
pub proof fn law_is_low(start: nat, text: Seq<u8>)
    ensures
        arena::is_low(start, text) <==> start < 4294967296 || text.len() == 0,
{
}

/// `zeros` are zeros.
pub proof fn law_zeros(n: nat)
    ensures
        arena::zeros(n).len() == n,
        forall|i: int| 0 <= i < n ==> #[trigger] arena::zeros(n)[i] == 0,
{
}

} // verus!
