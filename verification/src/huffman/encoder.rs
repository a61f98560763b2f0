//! Encoding.
use crate::bits;
use crate::buffers;
use crate::huffman::code;
use crate::huffman::table;
use bytes::BytesMut;
use vstd::arithmetic::power2::*;
use vstd::prelude::*;

verus! {

/// The symbol's code is what the table says.
proof fn lemma_table_entry(sym: u8)
    ensures
        table::ENCODE_TABLE@[sym as int].0 as nat == table::code_len(sym),
        table::ENCODE_TABLE@[sym as int].1 as nat == table::code_value(sym),
{
    reveal(table::code_len);
    reveal(table::code_value);
}

/// Appends the code of `src` to `dst`, filled up to whole bytes with ones.
#[verifier::rlimit(40)]
pub fn encode(src: &[u8], dst: &mut BytesMut)
    requires
        buffers::buffer_bytes(*old(dst)).len() + code::encoding(src@).len() <= isize::MAX,
    ensures
        buffers::buffer_bytes(*final(dst)) == buffers::buffer_bytes(*old(dst)) + code::encoding(
            src@,
        ),
{
    // The bits that are not yet a whole byte, as a number and its width.
    let mut acc: u64 = 0;
    let mut n: usize = 0;
    let mut i: usize = 0;
    let ghost before = buffers::buffer_bytes(*dst);
    let ghost mut written: Seq<u8> = Seq::empty();
    proof {
        lemma2_to64();
        code::lemma_encoding_bits(src@);
        assert(src@.take(0) =~= Seq::empty());
        assert(bits::bits_of(written) + bits::to_bits(0, 0) =~= code::encoded(src@.take(0)));
        assert(before + written =~= before);
    }
    while i < src.len()
        invariant
            i <= src@.len(),
            n < 8,
            acc < pow2(n as nat),
            bits::bits_of(written) + bits::to_bits(acc as nat, n as nat) == code::encoded(
                src@.take(i as int),
            ),
            before == buffers::buffer_bytes(*old(dst)),
            buffers::buffer_bytes(*dst) == before + written,
            before.len() + code::encoding(src@).len() <= isize::MAX,
            code::encoding(src@).len() == (code::encoded(src@).len() + 7) / 8,
        decreases src@.len() - i,
    {
        let b: u8 = src[i];
        let (nbits, code) = table::ENCODE_TABLE[b as usize];
        let ghost goal = code::encoded(src@.take(i + 1));
        proof {
            lemma_table_entry(b);
            code::lemma_code_len(b);
            lemma2_to64();
            lemma2_to64_rest();
            assert(src@.take(i + 1) =~= src@.take(i as int).push(b));
            code::lemma_encoded_push(src@.take(i as int), b);
            bits::lemma_to_bits_concat(acc as nat, n as nat, code as nat, nbits as nat);
            lemma_pow2_adds(n as nat, nbits as nat);
            if nbits < 30 {
                lemma_pow2_strictly_increases(nbits as nat, 30);
            }
            if n < 7 {
                lemma_pow2_strictly_increases(n as nat, 7);
            }
            let p = pow2(nbits as nat);
            let q = pow2(n as nat);
            assert(acc * p + code < q * p && acc * p < 0x20_0000_0000) by (nonlinear_arith)
                requires
                    acc < q,
                    q <= 128,
                    p <= 0x4000_0000,
                    0 < p,
                    code < p,
            ;
            vstd::bits::lemma_u64_shl_is_mul(acc, nbits as u64);
            assert(bits::bits_of(written) + (bits::to_bits(acc as nat, n as nat) + code::code(b))
                =~= bits::bits_of(written) + bits::to_bits(acc as nat, n as nat) + code::code(b));
            code::lemma_encoded_concat(src@.take(i + 1), src@.skip(i + 1));
            assert(src@.take(i + 1) + src@.skip(i + 1) =~= src@);
        }
        acc = (acc << nbits) + code;
        n = n + nbits;
        while n >= 8
            invariant
                n < 38,
                acc < pow2(n as nat),
                bits::bits_of(written) + bits::to_bits(acc as nat, n as nat) == goal,
                before == buffers::buffer_bytes(*old(dst)),
                buffers::buffer_bytes(*dst) == before + written,
                before.len() + code::encoding(src@).len() <= isize::MAX,
                code::encoding(src@).len() == (code::encoded(src@).len() + 7) / 8,
                goal.len() <= code::encoded(src@).len(),
            decreases n,
        {
            let m: usize = n - 8;
            proof {
                lemma2_to64();
                lemma_pow2_pos(m as nat);
                lemma_pow2_adds(8, m as nat);
                vstd::bits::lemma_u64_shr_is_div(acc, m as u64);
                vstd::bits::lemma_u64_pow2_no_overflow(m as nat);
                vstd::bits::lemma_u64_shl_is_mul(1, m as u64);
                bits::lemma_to_bits_split(acc as nat, 8, m as nat);
                vstd::arithmetic::div_mod::lemma_multiply_divide_lt(
                    acc as int,
                    pow2(m as nat) as int,
                    256,
                );
                vstd::arithmetic::div_mod::lemma_mod_bound(acc as int, pow2(m as nat) as int);
            }
            let byte: u8 = (acc >> m) as u8;
            proof {
                bits::lemma_bits_of_push(written, byte);
                bits::lemma_bits_of_len(written);
                bits::lemma_to_bits_len(acc as nat, n as nat);
                let rest = bits::to_bits(acc as nat % pow2(m as nat), m as nat);
                assert(bits::bits_of(written) + (bits::to_bits(byte as nat, 8) + rest)
                    =~= bits::bits_of(written) + bits::to_bits(byte as nat, 8) + rest);
                assert((before + written).push(byte) =~= before + written.push(byte));
            }
            buffers::put_u8(dst, byte);
            proof {
                written = written.push(byte);
            }
            acc = acc % (1u64 << m);
            n = m;
        }
        i = i + 1;
    }
    assert(src@.take(src@.len() as int) =~= src@);
    let ghost pad = code::fill(code::encoded(src@).len());
    proof {
        bits::lemma_bits_of_len(written);
        bits::lemma_to_bits_len(acc as nat, n as nat);
    }
    if n > 0 {
        let m: usize = 8 - n;
        proof {
            lemma2_to64();
            assert(pad == m);
            lemma_pow2_pos(m as nat);
            lemma_pow2_adds(n as nat, m as nat);
            bits::lemma_to_bits_ones(m as nat);
            bits::lemma_to_bits_concat(
                acc as nat,
                n as nat,
                (pow2(m as nat) - 1) as nat,
                m as nat,
            );
            let p = pow2(m as nat);
            let q = pow2(n as nat);
            assert(acc * p + p <= q * p) by (nonlinear_arith)
                requires
                    acc < q,
                    0 < p,
            ;
            vstd::bits::lemma_u64_shl_is_mul(acc, m as u64);
            vstd::bits::lemma_u64_shl_is_mul(1, m as u64);
        }
        let byte: u8 = ((acc << m) + ((1u64 << m) - 1)) as u8;
        proof {
            bits::lemma_bits_of_push(written, byte);
            let rest = bits::to_bits(acc as nat, n as nat);
            assert(bits::bits_of(written) + (rest + bits::ones(pad)) =~= bits::bits_of(written)
                + rest + bits::ones(pad));
            bits::lemma_pack_of_bits(
                written.push(byte),
                code::encoded(src@) + bits::ones(pad),
            );
            assert((before + written).push(byte) =~= before + written.push(byte));
        }
        buffers::put_u8(dst, byte);
    } else {
        proof {
            assert(pad == 0);
            assert(bits::bits_of(written) =~= code::encoded(src@) + bits::ones(pad));
            bits::lemma_pack_of_bits(written, code::encoded(src@) + bits::ones(pad));
        }
    }
}

} // verus!
