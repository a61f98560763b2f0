//! What number the bytes of an integer write down.
use crate::error::{DecoderError, NeedMore};
use crate::integer;
use vstd::arithmetic::power2::*;
use vstd::prelude::*;

verus! {

/// An integer whose prefix is not all ones is the prefix.
pub proof fn law_small_integer(src: Seq<u8>, pos: nat, prefix: nat)
    requires
        pos < src.len(),
        prefix <= 8,
        src[pos as int] as nat % pow2(prefix) != pow2(prefix) - 1,
    ensures
        integer::integer(src, pos, prefix).result == Ok::<nat, DecoderError>(
            src[pos as int] as nat % pow2(prefix),
        ),
        integer::integer(src, pos, prefix).pos == pos + 1,
{
    lemma_pow2_pos(prefix);
    vstd::arithmetic::div_mod::lemma_mod_bound(src[pos as int] as int, pow2(prefix) as int);
}

/// An integer whose prefix is all ones goes on in one to four bytes, of which the
/// last is below 128. They are the digits of what is to be added to the prefix, in
/// the base 128 and the lowest first; a digit may be zero, the last one too.
pub proof fn law_large_integer(src: Seq<u8>, pos: nat, prefix: nat, count: nat)
    requires
        prefix <= 8,
        1 <= count <= 4,
        pos + count < src.len(),
        src[pos as int] as nat % pow2(prefix) == pow2(prefix) - 1,
        forall|i: int| 1 <= i < count ==> #[trigger] src[pos + i] >= 128,
        src[(pos + count) as int] < 128,
    ensures
        integer::integer(src, pos, prefix).pos == pos + count + 1,
        integer::integer(src, pos, prefix).result == Ok::<nat, DecoderError>(
            (pow2(prefix) - 1 + src[(pos + 1) as int] as nat % 128 + (if count >= 2 {
                128 * (src[(pos + 2) as int] as nat % 128)
            } else {
                0
            }) + (if count >= 3 {
                16384 * (src[(pos + 3) as int] as nat % 128)
            } else {
                0
            }) + (if count >= 4 {
                2097152 * (src[(pos + 4) as int] as nat % 128)
            } else {
                0
            })) as nat,
        ),
{
    lemma_pow2_pos(prefix);
    reveal_with_fuel(integer::continuation, 6);
    if count >= 2 {
        assert(src[(pos + 1) as int] >= 128);
    }
    if count >= 3 {
        assert(src[(pos + 2) as int] >= 128);
    }
    if count >= 4 {
        assert(src[(pos + 3) as int] >= 128);
    }
}

/// An integer is cut short if the input ends in its prefix, or after bytes of which
/// none is the last.
pub proof fn law_integer_cut(src: Seq<u8>, pos: nat, prefix: nat, count: nat)
    requires
        prefix <= 8,
        count <= 4,
        pos + count == src.len(),
        count > 0 ==> src[pos as int] as nat % pow2(prefix) == pow2(prefix) - 1,
        forall|i: int| 1 <= i < count ==> #[trigger] src[pos + i] >= 128,
    ensures
        integer::integer(src, pos, prefix).result == Err::<nat, DecoderError>(
            DecoderError::NeedMore(NeedMore::IntegerUnderflow),
        ),
        integer::integer(src, pos, prefix).pos == src.len(),
{
    lemma_pow2_pos(prefix);
    reveal_with_fuel(integer::continuation, 6);
    if count >= 2 {
        assert(src[(pos + 1) as int] >= 128);
    }
    if count >= 3 {
        assert(src[(pos + 2) as int] >= 128);
    }
    if count >= 4 {
        assert(src[(pos + 3) as int] >= 128);
    }
}

/// Nothing is read beyond the input.
pub proof fn law_integer_beyond(src: Seq<u8>, pos: nat, prefix: nat)
    requires
        pos >= src.len(),
    ensures
        integer::integer(src, pos, prefix).result == Err::<nat, DecoderError>(
            DecoderError::NeedMore(NeedMore::IntegerUnderflow),
        ),
        integer::integer(src, pos, prefix).pos == pos,
{
}

/// An integer with four bytes after its prefix, of which none is the last, is too
/// long.
pub proof fn law_integer_too_long(src: Seq<u8>, pos: nat, prefix: nat)
    requires
        prefix <= 8,
        pos + 4 < src.len(),
        src[pos as int] as nat % pow2(prefix) == pow2(prefix) - 1,
        forall|i: int| 1 <= i <= 4 ==> #[trigger] src[pos + i] >= 128,
    ensures
        integer::integer(src, pos, prefix).result == Err::<nat, DecoderError>(
            DecoderError::IntegerOverflow,
        ),
        integer::integer(src, pos, prefix).pos == pos + 5,
{
    lemma_pow2_pos(prefix);
    reveal_with_fuel(integer::continuation, 6);
    assert(src[(pos + 1) as int] >= 128);
    assert(src[(pos + 2) as int] >= 128);
    assert(src[(pos + 3) as int] >= 128);
    assert(src[(pos + 4) as int] >= 128);
}

/// The bytes after a prefix, whatever its value, are such digits.
pub proof fn law_continuation(src: Seq<u8>, pos: nat, value: nat, count: nat)
    requires
        1 <= count <= 4,
        pos + count <= src.len(),
        forall|i: int| 0 <= i < count - 1 ==> #[trigger] src[pos + i] >= 128,
        src[pos + count - 1] < 128,
    ensures
        integer::continuation(src, pos, value, 1, 4).pos == pos + count,
        integer::continuation(src, pos, value, 1, 4).result == Ok::<nat, DecoderError>(
            (value + src[pos as int] as nat % 128 + (if count >= 2 {
                128 * (src[(pos + 1) as int] as nat % 128)
            } else {
                0
            }) + (if count >= 3 {
                16384 * (src[(pos + 2) as int] as nat % 128)
            } else {
                0
            }) + (if count >= 4 {
                2097152 * (src[(pos + 3) as int] as nat % 128)
            } else {
                0
            })) as nat,
        ),
{
    reveal_with_fuel(integer::continuation, 6);
    if count >= 2 {
        assert(src[(pos + 0) as int] >= 128);
    }
    if count >= 3 {
        assert(src[(pos + 1) as int] >= 128);
    }
    if count >= 4 {
        assert(src[(pos + 2) as int] >= 128);
    }
}

/// Without a last byte among the next four, the bytes after a prefix are cut short,
/// or too long.
pub proof fn law_continuation_refused(src: Seq<u8>, pos: nat, value: nat)
    requires
        forall|i: int| 0 <= i < 4 && pos + i < src.len() ==> #[trigger] src[pos + i] >= 128,
    ensures
        ({
            let read = integer::continuation(src, pos, value, 1, 4);
            if pos + 4 <= src.len() {
                &&& read.result == Err::<nat, DecoderError>(DecoderError::IntegerOverflow)
                &&& read.pos == pos + 4
            } else {
                &&& read.result == Err::<nat, DecoderError>(
                    DecoderError::NeedMore(NeedMore::IntegerUnderflow),
                )
                &&& pos <= src.len() ==> read.pos == src.len()
            }
        }),
{
    reveal_with_fuel(integer::continuation, 6);
    assert(pos + 0 < src.len() ==> src[(pos + 0) as int] >= 128);
    assert(pos + 1 < src.len() ==> src[(pos + 1) as int] >= 128);
    assert(pos + 2 < src.len() ==> src[(pos + 2) as int] >= 128);
    assert(pos + 3 < src.len() ==> src[(pos + 3) as int] >= 128);
}

/// A result in machine integers stands for the same number, or the same error.
pub proof fn law_as_nat(r: Result<usize, DecoderError>)
    ensures
        r matches Ok(n) ==> integer::as_nat(r) == Ok::<nat, DecoderError>(n as nat),
        r matches Err(e) ==> integer::as_nat(r) == Err::<nat, DecoderError>(e),
{
}

} // verus!
