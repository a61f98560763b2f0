//! Integers with a prefix.
use crate::error::{DecoderError, NeedMore};
use vstd::arithmetic::power2::*;
use vstd::prelude::*;

verus! {

/// How many bytes an integer may have after its prefix.
pub const MAX_CONTINUATION: usize = 4;

/// An integer that was read, or why not, and where to read on.
pub struct IntegerRead {
    pub result: Result<nat, DecoderError>,
    pub pos: nat,
}

/// The rest of an integer, from `pos` on. Each byte adds its low seven bits,
/// times `weight`; the last is the one without the high bit. There may be `left`
/// bytes at most.
pub open spec fn continuation(
    src: Seq<u8>,
    pos: nat,
    value: nat,
    weight: nat,
    left: nat,
) -> IntegerRead
    decreases left,
{
    if left == 0 {
        IntegerRead { result: Err(DecoderError::IntegerOverflow), pos }
    } else if pos >= src.len() {
        IntegerRead { result: Err(DecoderError::NeedMore(NeedMore::IntegerUnderflow)), pos }
    } else {
        let b = src[pos as int] as nat;
        let sum = value + (b % 128) * weight;
        if b < 128 {
            IntegerRead { result: Ok(sum), pos: pos + 1 }
        } else {
            continuation(src, pos + 1, sum, weight * 128, (left - 1) as nat)
        }
    }
}

/// The integer at `pos` whose prefix has `prefix_size` bits. A prefix of ones
/// goes on in the bytes that follow.
pub open spec fn integer(src: Seq<u8>, pos: nat, prefix_size: nat) -> IntegerRead {
    if pos >= src.len() {
        IntegerRead { result: Err(DecoderError::NeedMore(NeedMore::IntegerUnderflow)), pos }
    } else {
        let value = src[pos as int] as nat % pow2(prefix_size);
        if value < pow2(prefix_size) - 1 {
            IntegerRead { result: Ok(value), pos: pos + 1 }
        } else {
            continuation(src, pos + 1, value, 1, MAX_CONTINUATION as nat)
        }
    }
}

/// A result in machine integers, as a mathematical one.
pub open spec fn as_nat(r: Result<usize, DecoderError>) -> Result<nat, DecoderError> {
    match r {
        Ok(n) => Ok(n as nat),
        Err(e) => Err(e),
    }
}

/// Reads the integer at `pos` whose prefix has `prefix_size` bits, and moves
/// `pos` past what was read.
pub fn decode_int_fast(src: &[u8], pos: &mut usize, prefix_size: u8) -> (r: Result<
    usize,
    DecoderError,
>)
    requires
        prefix_size <= 8,
    ensures
        as_nat(r) == integer(src@, *old(pos) as nat, prefix_size as nat).result,
        *final(pos) == integer(src@, *old(pos) as nat, prefix_size as nat).pos,
{
    if *pos >= src.len() {
        return Err(DecoderError::NeedMore(NeedMore::IntegerUnderflow));
    }
    let mask: u8 = if prefix_size == 8 {
        0xff
    } else {
        proof {
            lemma2_to64();
            vstd::bits::lemma_u8_pow2_no_overflow(prefix_size as nat);
            vstd::bits::lemma_u8_shl_is_mul(1, prefix_size);
        }
        (1u8 << prefix_size) - 1
    };
    let byte: u8 = src[*pos];
    let val: u8 = byte & mask;
    proof {
        lemma2_to64();
        if prefix_size == 8 {
            assert(byte & 0xff == byte) by (bit_vector);
        } else {
            assert(mask == vstd::bits::low_bits_mask(prefix_size as nat));
            vstd::bits::lemma_u8_low_bits_mask_is_mod(byte, prefix_size as nat);
            lemma_pow2_pos(prefix_size as nat);
            assert(val == byte as nat % pow2(prefix_size as nat));
        }
    }
    *pos = *pos + 1;
    if val < mask {
        return Ok(val as usize);
    }
    decode_int_slow(src, pos, val as usize)
}

/// Reads the bytes of an integer that follow its prefix, which says `ret`.
pub fn decode_int_slow(src: &[u8], pos: &mut usize, ret: usize) -> (r: Result<usize, DecoderError>)
    requires
        ret + 0x0fff_ffff <= usize::MAX,
    ensures
        as_nat(r) == continuation(src@, *old(pos) as nat, ret as nat, 1, 4).result,
        *final(pos) == continuation(src@, *old(pos) as nat, ret as nat, 1, 4).pos,
{
    let ghost whole = continuation(src@, *old(pos) as nat, ret as nat, 1, 4);
    let mut value: usize = ret;
    let mut weight: usize = 1;
    let mut left: usize = MAX_CONTINUATION;
    while left > 0
        invariant
            left <= 4,
            whole == continuation(src@, *old(pos) as nat, ret as nat, 1, 4),
            ret + 0x0fff_ffff <= usize::MAX,
            value < ret + weight,
            weight == (if left == 4 {
                1int
            } else if left == 3 {
                0x80
            } else if left == 2 {
                0x4000
            } else if left == 1 {
                0x20_0000
            } else {
                0x1000_0000
            }),
            continuation(src@, *pos as nat, value as nat, weight as nat, left as nat) == whole,
        decreases left,
    {
        if *pos >= src.len() {
            return Err(DecoderError::NeedMore(NeedMore::IntegerUnderflow));
        }
        let b: u8 = src[*pos];
        *pos = *pos + 1;
        let low: usize = (b % 128) as usize;
        assert(0 <= low * weight <= 127 * weight) by (nonlinear_arith)
            requires
                0 <= low <= 127,
                0 <= weight,
        ;
        value = value + low * weight;
        if b < 128 {
            return Ok(value);
        }
        weight = weight * 128;
        left = left - 1;
    }
    Err(DecoderError::IntegerOverflow)
}

/// An integer has one byte at least, five at most, and lies within the input;
/// it is below 2^28 + 2^8.
pub proof fn lemma_integer_span(src: Seq<u8>, pos: nat, prefix_size: nat)
    requires
        pos < src.len(),
        prefix_size <= 8,
    ensures
        pos < integer(src, pos, prefix_size).pos <= pos + 5,
        integer(src, pos, prefix_size).pos <= src.len(),
        integer(src, pos, prefix_size).result matches Ok(value) ==> value < 0x1000_0100,
{
    lemma2_to64();
    lemma_pow2_pos(prefix_size);
    let value = src[pos as int] as nat % pow2(prefix_size);
    vstd::arithmetic::div_mod::lemma_mod_decreases(src[pos as int] as nat, pow2(prefix_size));
    lemma_continuation_span(src, pos + 1, value, 1, 4);
}

proof fn lemma_continuation_span(src: Seq<u8>, pos: nat, value: nat, weight: nat, left: nat)
    requires
        pos <= src.len(),
    ensures
        ({
            let r = continuation(src, pos, value, weight, left);
            &&& pos <= r.pos <= pos + left
            &&& r.pos <= src.len()
            &&& left <= 4 ==> (r.result matches Ok(sum) ==> sum <= value + weight * (if left == 4 {
                0x0fff_ffffint
            } else if left == 3 {
                0x1f_ffff
            } else if left == 2 {
                0x3fff
            } else if left == 1 {
                0x7f
            } else {
                0
            }))
        }),
    decreases left,
{
    if left > 0 && pos < src.len() {
        let b = src[pos as int] as nat;
        let sum = value + (b % 128) * weight;
        assert((b % 128) * weight <= 127 * weight) by (nonlinear_arith)
            requires
                b % 128 <= 127,
        ;
        lemma_continuation_span(src, pos + 1, sum, weight * 128, (left - 1) as nat);
    }
}

} // verus!
