//! Bits of numbers and of bytes.
use crate::bits;
use vstd::arithmetic::power2::*;
use vstd::prelude::*;

verus! {

/// The bits of a number stand with the most significant first.
pub proof fn law_to_bits(val: nat, len: nat, i: int)
    requires
        0 <= i < len,
    ensures
        bits::to_bits(val, len).len() == len,
        bits::to_bits(val, len)[i] == (val / pow2((len - 1 - i) as nat) % 2 == 1),
    decreases len,
{
    bits::lemma_to_bits_len(val, len);
    lemma2_to64();
    if i < len - 1 {
        law_to_bits(val / 2, (len - 1) as nat, i);
        let k = (len - 2 - i) as nat;
        lemma_pow2_pos(k);
        lemma_pow2_unfold(k + 1);
        vstd::arithmetic::div_mod::lemma_div_denominator(val as int, 2, pow2(k) as int);
        bits::lemma_to_bits_len(val / 2, (len - 1) as nat);
        assert(val / 2 / pow2(k) == val / pow2(k + 1));
        assert((len - 1 - i) as nat == k + 1);
    } else {
        assert(pow2((len - 1 - i) as nat) == 1);
        assert(val / 1 == val);
        bits::lemma_to_bits_len(val / 2, (len - 1) as nat);
    }
}

/// A bit string writes down its last bit, and twice what the bits before it do.
pub proof fn law_from_bits(bits: Seq<bool>, bit: bool)
    ensures
        bits::from_bits(Seq::empty()) == 0,
        bits::from_bits(bits.push(bit)) == 2 * bits::from_bits(bits) + (if bit {
            1nat
        } else {
            0nat
        }),
{
    assert(bits.push(bit).drop_last() =~= bits);
}

/// The bits of bytes stand in the order of the bytes, in each with the most
/// significant first.
pub proof fn law_bits_of(bytes: Seq<u8>, i: int, j: int)
    requires
        0 <= i < bytes.len(),
        0 <= j < 8,
    ensures
        bits::bits_of(bytes).len() == 8 * bytes.len(),
        bits::bits_of(bytes)[8 * i + j] == (bytes[i] as nat / pow2((7 - j) as nat) % 2 == 1),
    decreases bytes.len(),
{
    bits::lemma_bits_of_len(bytes);
    let fewer = bytes.drop_last();
    bits::lemma_bits_of_len(fewer);
    law_to_bits(bytes.last() as nat, 8, j);
    if i < fewer.len() {
        law_bits_of(fewer, i, j);
    }
}

/// What runs of ones and beginnings are.
pub proof fn law_runs(bits: Seq<bool>, prefix: Seq<bool>, n: nat)
    ensures
        bits::ones(n).len() == n,
        forall|i: int| 0 <= i < n ==> #[trigger] bits::ones(n)[i],
        bits::all_ones(bits) <==> bits == bits::ones(bits.len()),
        bits::begins(prefix + bits, prefix),
        bits::begins(bits, prefix) ==> prefix + bits.skip(prefix.len() as int) == bits,
{
    assert((prefix + bits).take(prefix.len() as int) =~= prefix);
    if bits::all_ones(bits) {
        assert(bits =~= bits::ones(bits.len()));
    } else if bits == bits::ones(bits.len()) {
        assert forall|i: int| 0 <= i < bits.len() implies bits[i] by {
            assert(bits::ones(bits.len())[i]);
        }
    }
    if bits::begins(bits, prefix) {
        assert(prefix + bits.skip(prefix.len() as int) =~= bits);
    }
}

/// Packing bits into bytes is undone by taking the bits of the bytes.
pub proof fn law_pack(stream: Seq<bool>)
    requires
        stream.len() % 8 == 0,
    ensures
        bits::bits_of(bits::pack(stream)) == stream,
{
    bits::lemma_bits_of_pack(stream);
}

} // verus!
