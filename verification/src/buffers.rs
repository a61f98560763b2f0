//! The byte buffers of the `bytes` crate, and the cursor over one.
//!
//! The functions here do nothing but call the outside method that they name;
//! their contracts are taken on trust. None of them says anything of the memory
//! that a buffer has allocated.
use bytes::{Buf, BufMut, Bytes, BytesMut};
use std::io::Cursor;
use vstd::prelude::*;

verus! {

/// The growable buffer `bytes::BytesMut`.
#[verifier::external_type_specification]
#[verifier::external_body]
pub struct ExBytesMut(bytes::BytesMut);

/// The shared, read-only buffer `bytes::Bytes`.
#[verifier::external_type_specification]
#[verifier::external_body]
pub struct ExBytes(bytes::Bytes);

/// The cursor `std::io::Cursor`.
#[verifier::external_type_specification]
#[verifier::external_body]
#[verifier::reject_recursive_types(T)]
pub struct ExCursor<T>(std::io::Cursor<T>);

/// The bytes that a growable buffer holds.
pub uninterp spec fn buffer_bytes(buf: BytesMut) -> Seq<u8>;

/// The bytes that a shared buffer holds.
pub uninterp spec fn shared_bytes(buf: Bytes) -> Seq<u8>;

/// The bytes that the buffer under a cursor holds.
pub uninterp spec fn cursor_bytes(cursor: Cursor<&mut BytesMut>) -> Seq<u8>;

/// Where a cursor stands in its buffer.
pub uninterp spec fn cursor_position(cursor: Cursor<&mut BytesMut>) -> u64;

/// `BytesMut::with_capacity`: a new buffer is empty.
#[verifier::external_body]
pub(crate) fn with_capacity(capacity: usize) -> (buf: BytesMut)
    requires
        capacity <= isize::MAX,
    ensures
        buffer_bytes(buf) == Seq::<u8>::empty(),
{
    BytesMut::with_capacity(capacity)
}

/// `BytesMut::len`: how many bytes the buffer holds.
#[verifier::external_body]
pub(crate) fn len(buf: &BytesMut) -> (n: usize)
    ensures
        n == buffer_bytes(*buf).len(),
{
    buf.len()
}

/// `BytesMut::reserve`: leaves what the buffer holds as it is. No buffer is
/// longer than `isize::MAX`.
#[verifier::external_body]
pub(crate) fn reserve(buf: &mut BytesMut, additional: usize)
    requires
        buffer_bytes(*old(buf)).len() + additional <= isize::MAX,
    ensures
        buffer_bytes(*final(buf)) == buffer_bytes(*old(buf)),
{
    buf.reserve(additional)
}

/// `BufMut::put_u8` on a `BytesMut`: appends one byte.
#[verifier::external_body]
pub(crate) fn put_u8(buf: &mut BytesMut, byte: u8)
    requires
        buffer_bytes(*old(buf)).len() < isize::MAX,
    ensures
        buffer_bytes(*final(buf)) == buffer_bytes(*old(buf)).push(byte),
{
    buf.put_u8(byte)
}

/// `BytesMut::extend_from_slice`: appends a copy of `data`.
#[verifier::external_body]
pub(crate) fn extend_from_slice(buf: &mut BytesMut, data: &[u8])
    requires
        buffer_bytes(*old(buf)).len() + data@.len() <= isize::MAX,
    ensures
        buffer_bytes(*final(buf)) == buffer_bytes(*old(buf)) + data@,
{
    buf.extend_from_slice(data)
}

/// `BytesMut::resize`: cuts the buffer down to `new_len` bytes, or fills it up
/// to that length with copies of `value`.
#[verifier::external_body]
pub(crate) fn resize(buf: &mut BytesMut, new_len: usize, value: u8)
    requires
        new_len <= isize::MAX,
    ensures
        buffer_bytes(*final(buf)) == Seq::new(
            new_len as nat,
            |i: int|
                if i < buffer_bytes(*old(buf)).len() {
                    buffer_bytes(*old(buf))[i]
                } else {
                    value
                },
        ),
{
    buf.resize(new_len, value)
}

/// `BytesMut::truncate`: keeps the first `len` bytes; a buffer that holds no
/// more than that stays as it is.
#[verifier::external_body]
pub(crate) fn truncate(buf: &mut BytesMut, len: usize)
    ensures
        buffer_bytes(*final(buf)) == (if len <= buffer_bytes(*old(buf)).len() {
            buffer_bytes(*old(buf)).take(len as int)
        } else {
            buffer_bytes(*old(buf))
        }),
{
    buf.truncate(len)
}

/// `BytesMut::split`: hands out all the bytes and leaves the buffer empty.
#[verifier::external_body]
pub(crate) fn split(buf: &mut BytesMut) -> (taken: BytesMut)
    ensures
        buffer_bytes(taken) == buffer_bytes(*old(buf)),
        buffer_bytes(*final(buf)) == Seq::<u8>::empty(),
{
    buf.split()
}

/// `BytesMut` as a slice: the bytes that it holds.
#[verifier::external_body]
pub(crate) fn as_slice(buf: &BytesMut) -> (data: &[u8])
    ensures
        data@ == buffer_bytes(*buf),
{
    &buf[..]
}

/// `BytesMut` as a mutable slice: what is written to the slice is then what the
/// buffer holds.
#[verifier::external_body]
pub(crate) fn as_mut_slice(buf: &mut BytesMut) -> (data: &mut [u8])
    ensures
        data@ == buffer_bytes(*old(buf)),
        buffer_bytes(*final(buf)) == final(data)@,
{
    &mut buf[..]
}

/// `BytesMut::freeze`: the shared buffer holds the same bytes.
#[verifier::external_body]
pub(crate) fn freeze(buf: BytesMut) -> (frozen: Bytes)
    ensures
        shared_bytes(frozen) == buffer_bytes(buf),
{
    buf.freeze()
}

/// `Bytes::slice`: the bytes from `start` up to `end`.
#[verifier::external_body]
pub(crate) fn slice(buf: &Bytes, start: usize, end: usize) -> (part: Bytes)
    requires
        start <= end <= shared_bytes(*buf).len(),
    ensures
        shared_bytes(part) == shared_bytes(*buf).subrange(start as int, end as int),
{
    buf.slice(start..end)
}

/// `Bytes::from_static`: a shared buffer over bytes that live for ever.
#[verifier::external_body]
pub(crate) fn from_static(data: &'static [u8]) -> (buf: Bytes)
    ensures
        shared_bytes(buf) == data@,
{
    Bytes::from_static(data)
}

/// `Bytes` as a slice: the bytes that it holds.
#[verifier::external_body]
pub(crate) fn shared_slice(buf: &Bytes) -> (data: &[u8])
    ensures
        data@ == shared_bytes(*buf),
{
    &buf[..]
}

/// `Buf::chunk` of a cursor: the bytes from its position on, none if it stands
/// beyond the end.
#[verifier::external_body]
pub(crate) fn cursor_chunk<'a>(cursor: &'a Cursor<&mut BytesMut>) -> (data: &'a [u8])
    ensures
        data@ == (if cursor_position(*cursor) <= cursor_bytes(*cursor).len() {
            cursor_bytes(*cursor).skip(cursor_position(*cursor) as int)
        } else {
            Seq::<u8>::empty()
        }),
{
    cursor.chunk()
}

/// `Buf::advance` of a cursor: moves it on by `count`. It then still stands
/// within the buffer, whose length is a `usize`.
#[verifier::external_body]
pub(crate) fn cursor_advance(cursor: &mut Cursor<&mut BytesMut>, count: usize)
    requires
        cursor_position(*old(cursor)) + count <= cursor_bytes(*old(cursor)).len(),
    ensures
        cursor_bytes(*final(cursor)) == cursor_bytes(*old(cursor)),
        cursor_position(*final(cursor)) == cursor_position(*old(cursor)) + count,
        cursor_position(*final(cursor)) <= usize::MAX,
{
    cursor.advance(count)
}

/// `Cursor::position`: where the cursor stands.
#[verifier::external_body]
pub(crate) fn cursor_at(cursor: &Cursor<&mut BytesMut>) -> (position: u64)
    ensures
        position == cursor_position(*cursor),
{
    cursor.position()
}

/// `BytesMut::len` of the buffer under a cursor: how many bytes it holds.
#[verifier::external_body]
pub(crate) fn cursor_len(cursor: &Cursor<&mut BytesMut>) -> (n: usize)
    ensures
        n == cursor_bytes(*cursor).len(),
{
    cursor.get_ref().len()
}

/// `Cursor::set_position`: moves the cursor to `position`.
#[verifier::external_body]
pub(crate) fn cursor_move(cursor: &mut Cursor<&mut BytesMut>, position: u64)
    ensures
        cursor_bytes(*final(cursor)) == cursor_bytes(*old(cursor)),
        cursor_position(*final(cursor)) == position,
{
    cursor.set_position(position)
}

/// `BytesMut::split_to` on the buffer under a cursor: takes its first `count`
/// bytes out and drops them. The cursor's position stays the same number.
#[verifier::external_body]
pub(crate) fn cursor_drop_front(cursor: &mut Cursor<&mut BytesMut>, count: usize)
    requires
        count <= cursor_bytes(*old(cursor)).len(),
    ensures
        cursor_bytes(*final(cursor)) == cursor_bytes(*old(cursor)).skip(count as int),
        cursor_position(*final(cursor)) == cursor_position(*old(cursor)),
{
    let _ = cursor.get_mut().split_to(count);
}

} // verus!
