//! The buffer that collects the strings of a header block.
use crate::bits;
use crate::buffers;
use crate::error::DecoderError;
use crate::headers;
use crate::headers::Header;
use crate::huffman::code;
use crate::huffman::peek;
use crate::huffman::slice;
use crate::materialize;
use bytes::{Bytes, BytesMut};
use vstd::prelude::*;

verus! {

/// Where a 32-bit offset and a 16-bit length point to, if they are cut from the
/// place and the length of a string.
pub open spec fn region(start: nat, len: nat) -> (u32, u16) {
    ((start % 0x1_0000_0000) as u32, (len % 0x1_0000) as u16)
}

/// The bytes at an offset.
pub open spec fn bytes_at(buffer: Seq<u8>, offset: u32, len: u16) -> Seq<u8> {
    buffer.subrange(offset as int, offset + len)
}

/// What is found again of `text` once it has been appended to `before`: the
/// offset is kept in 32 bits and the length in 16.
pub open spec fn kept(before: Seq<u8>, text: Seq<u8>) -> Seq<u8> {
    let (offset, len) = region(before.len(), text.len());
    bytes_at(before + text, offset, len)
}

/// The region of an appended string lies in the buffer, and what is appended
/// later does not change it.
pub proof fn lemma_kept(before: Seq<u8>, text: Seq<u8>, after: Seq<u8>)
    ensures
        ({
            let (offset, len) = region(before.len(), text.len());
            &&& offset + len <= before.len() + text.len()
            &&& bytes_at(before + text + after, offset, len) == kept(before, text)
            &&& kept(before, text).len() == len
        }),
{
    let (offset, len) = region(before.len(), text.len());
    assert(before.len() % 0x1_0000_0000 <= before.len());
    assert(text.len() % 0x1_0000 <= text.len());
    assert(bytes_at(before + text + after, offset, len) =~= kept(before, text));
}

/// How many places offsets of 32 bits can tell apart.
pub const OFFSETS: u64 = 0x1_0000_0000;

/// An offset can tell where the string starts. Of an empty string it need not.
pub open spec fn is_low(start: nat, text: Seq<u8>) -> bool {
    start < OFFSETS || text.len() == 0
}

/// A string is found again whole, if it is shorter than 2^16 bytes and starts below
/// 2^32.
pub proof fn law_kept_whole(before: Seq<u8>, text: Seq<u8>)
    requires
        is_low(before.len(), text),
        text.len() < 0x1_0000,
    ensures
        kept(before, text) == text,
{
    assert(kept(before, text) =~= text);
}

/// A write buffer for decoded strings. In the end it is frozen, and the headers
/// share it.
pub struct WriteArena {
    buf: BytesMut,
}

impl View for WriteArena {
    type V = Seq<u8>;

    closed spec fn view(&self) -> Seq<u8> {
        buffers::buffer_bytes(self.buf)
    }
}

/// The low 32 bits of a place and the low 16 bits of a length.
pub(crate) fn cut(start: usize, len: usize) -> (r: (u32, u16))
    ensures
        r == region(start as nat, len as nat),
{
    ((start as u64 % 0x1_0000_0000) as u32, (len % 0x1_0000) as u16)
}

impl WriteArena {
    /// An empty buffer.
    pub fn new() -> (arena: WriteArena)
        ensures
            arena@ == Seq::<u8>::empty(),
    {
        WriteArena { buf: buffers::with_capacity(4096) }
    }

    /// Appends `data` and returns its region.
    pub fn write(&mut self, data: &[u8]) -> (r: (u32, u16))
        requires
            old(self)@.len() + data@.len() <= isize::MAX,
        ensures
            final(self)@ == old(self)@ + data@,
            r == region(old(self)@.len(), data@.len()),
    {
        let start: usize = buffers::len(&self.buf);
        buffers::extend_from_slice(&mut self.buf, data);
        cut(start, data.len())
    }

    /// Appends `max_len` zeros and returns where they start, cut to 32 bits and
    /// whole.
    pub fn reserve_mut(&mut self, max_len: usize) -> (r: (u32, usize))
        requires
            old(self)@.len() + max_len <= isize::MAX,
        ensures
            final(self)@ == old(self)@ + zeros(max_len as nat),
            r.0 == region(old(self)@.len(), 0).0,
            r.1 == old(self)@.len(),
    {
        let start: usize = buffers::len(&self.buf);
        buffers::resize(&mut self.buf, start + max_len, 0);
        assert(self@ =~= old(self)@ + zeros(max_len as nat));
        (cut(start, 0).0, start)
    }

    /// Keeps the first `new_len` bytes.
    pub fn truncate_to(&mut self, new_len: usize)
        ensures
            final(self)@ == (if new_len <= old(self)@.len() {
                old(self)@.take(new_len as int)
            } else {
                old(self)@
            }),
    {
        buffers::truncate(&mut self.buf, new_len);
    }

    /// The bytes of a region.
    pub fn slice_ref(&self, offset: u32, len: u16) -> (data: &[u8])
        requires
            offset + len <= self@.len(),
        ensures
            data@ == bytes_at(self@, offset, len),
    {
        let all = buffers::as_slice(&self.buf);
        assert(all@.len() == all.len());
        vstd::slice::slice_subrange(all, offset as usize, offset as usize + len as usize)
    }

    /// The buffer, no longer to be written to.
    pub fn freeze(self) -> (frozen: Bytes)
        ensures
            buffers::shared_bytes(frozen) == self@,
    {
        buffers::freeze(self.buf)
    }

    /// The bytes, to be written to.
    pub fn as_mut_slice(&mut self) -> (data: &mut [u8])
        ensures
            data@ == old(self)@,
            final(self)@ == final(data)@,
    {
        buffers::as_mut_slice(&mut self.buf)
    }
}

/// `n` zeros.
pub open spec fn zeros(n: nat) -> Seq<u8> {
    Seq::new(n, |i: int| 0u8)
}

/// What decoding `src` appends to the arena: the string, or, if `src` is refused,
/// all the room that was reserved for it.
pub open spec fn decoding_leaves(src: Seq<u8>) -> Seq<u8> {
    let symbols = code::read(bits::bits_of(src)).symbols;
    if slice::is_accepted(src) {
        symbols
    } else {
        slice::overwritten(zeros(2 * src.len()), symbols)
    }
}

/// Appends the string that `src` is the code of and returns its region. If `src`
/// is refused, what was reserved for the string is left behind.
pub fn huffman_decode_to_arena(
    entries: &[(u8, u8); 1024],
    src: &[u8],
    arena: &mut WriteArena,
) -> (r: Result<(u32, u16), DecoderError>)
    requires
        peek::is_peek_table(entries@),
        old(arena)@.len() + 2 * src@.len() <= isize::MAX,
    ensures
        final(arena)@ == old(arena)@ + decoding_leaves(src@),
        match r {
            Ok(at) => {
                &&& slice::decoded(src@) matches Some(symbols)
                &&& at == region(old(arena)@.len(), symbols.len())
            },
            Err(e) => {
                &&& slice::decoded(src@) is None
                &&& e == DecoderError::InvalidHuffmanCode
            },
        },
{
    let ghost symbols = code::read(bits::bits_of(src@)).symbols;
    let (start_offset, start_idx) = arena.reserve_mut(2 * src.len());
    let decoded = {
        let all = arena.as_mut_slice();
        let (_, tail) = all.split_at_mut(start_idx);
        assert(tail@ =~= zeros(2 * src@.len()));
        slice::decode_with_table(entries, src, tail)
    };
    assert(arena@ =~= old(arena)@ + slice::overwritten(zeros(2 * src@.len()), symbols));
    match decoded {
        Err(e) => Err(e),
        Ok(actual_len) => {
            proof {
                code::lemma_symbols_len(src@);
                assert((old(arena)@ + slice::overwritten(zeros(2 * src@.len()), symbols)).take(
                    (start_idx + actual_len) as int,
                ) =~= old(arena)@ + symbols);
            }
            arena.truncate_to(start_idx + actual_len);
            Ok((start_offset, cut(0, actual_len).1))
        },
    }
}

/// A header that has been read but not yet made.
#[derive(Clone, Copy)]
pub enum DecodedHeader {
    /// A whole entry of the static table.
    StaticFull(u8),
    /// A name from the static table and a value in the arena.
    StaticName { static_idx: u8, value_offset: u32, value_len: u16 },
    /// A name and a value in the arena.
    Arena { name_offset: u32, name_len: u16, value_offset: u32, value_len: u16 },
}

/// What a header consists of before it is made.
#[verifier::ext_equal]
pub enum RawHeader {
    /// An entry of the static table.
    Entry(int),
    /// A name from the static table and a value.
    Named { idx: int, value: Seq<u8> },
    /// A name and a value.
    Literal { name: Seq<u8>, value: Seq<u8> },
}

impl RawHeader {
    /// The header that it makes.
    pub open spec fn made(self) -> Result<headers::HeaderView, DecoderError> {
        match self {
            RawHeader::Entry(idx) => Ok(headers::static_entry(idx)),
            RawHeader::Named { idx, value } => headers::static_header(idx, value),
            RawHeader::Literal { name, value } => headers::header_of(name, value),
        }
    }
}

impl DecodedHeader {
    /// Its regions lie in the arena, and its index is one of the static table.
    pub open spec fn within(self, arena: Seq<u8>) -> bool {
        match self {
            DecodedHeader::StaticFull(idx) => 1 <= idx <= 61,
            DecodedHeader::StaticName { static_idx, value_offset, value_len } => value_offset
                + value_len <= arena.len(),
            DecodedHeader::Arena { name_offset, name_len, value_offset, value_len } => {
                &&& name_offset + name_len <= arena.len()
                &&& value_offset + value_len <= arena.len()
            },
        }
    }

    /// What it consists of, with what its regions hold.
    pub open spec fn raw(self, arena: Seq<u8>) -> RawHeader {
        match self {
            DecodedHeader::StaticFull(idx) => RawHeader::Entry(idx as int),
            DecodedHeader::StaticName { static_idx, value_offset, value_len } => RawHeader::Named {
                idx: static_idx as int,
                value: bytes_at(arena, value_offset, value_len),
            },
            DecodedHeader::Arena { name_offset, name_len, value_offset, value_len } =>
                RawHeader::Literal {
                    name: bytes_at(arena, name_offset, name_len),
                    value: bytes_at(arena, value_offset, value_len),
                },
        }
    }

    /// What is appended to the arena later does not change a header.
    pub proof fn lemma_raw_later(self, arena: Seq<u8>, after: Seq<u8>)
        requires
            self.within(arena),
        ensures
            self.within(arena + after),
            self.raw(arena + after) == self.raw(arena),
    {
        assert(self.raw(arena + after) =~= self.raw(arena));
    }

    /// Makes the header.
    pub fn materialize(&self, frozen: &Bytes) -> (r: Result<Header, DecoderError>)
        requires
            self.within(buffers::shared_bytes(*frozen)),
        ensures
            headers::outcome(r) == self.raw(buffers::shared_bytes(*frozen)).made(),
    {
        match *self {
            DecodedHeader::StaticFull(idx) => Ok(materialize::materialize_static_full(idx)),
            DecodedHeader::StaticName { static_idx, value_offset, value_len } => {
                let value = slice_at(frozen, value_offset, value_len);
                materialize::materialize_static_name(static_idx, value)
            },
            DecodedHeader::Arena { name_offset, name_len, value_offset, value_len } => {
                let name = slice_at(frozen, name_offset, name_len);
                let value = slice_at(frozen, value_offset, value_len);
                materialize::materialize_field(name, value)
            },
        }
    }
}

/// The bytes of a region of the frozen arena, which they share.
fn slice_at(frozen: &Bytes, offset: u32, len: u16) -> (part: Bytes)
    requires
        offset + len <= buffers::shared_bytes(*frozen).len(),
    ensures
        buffers::shared_bytes(part) == bytes_at(buffers::shared_bytes(*frozen), offset, len),
{
    let all = buffers::shared_slice(frozen);
    assert(all@.len() == all.len());
    buffers::slice(frozen, offset as usize, offset as usize + len as usize)
}

} // verus!
