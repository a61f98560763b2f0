//! Bit strings: sequences of bits, most significant first.
use vstd::arithmetic::power2::*;
use vstd::prelude::*;

verus! {

/// The `len` low bits of `val`, most significant first.
pub open spec fn to_bits(val: nat, len: nat) -> Seq<bool>
    decreases len,
{
    if len == 0 {
        Seq::empty()
    } else {
        to_bits(val / 2, (len - 1) as nat).push(val % 2 == 1)
    }
}

/// The number that a bit string writes down.
pub open spec fn from_bits(bits: Seq<bool>) -> nat
    decreases bits.len(),
{
    if bits.len() == 0 {
        0
    } else {
        2 * from_bits(bits.drop_last()) + (if bits.last() {
            1nat
        } else {
            0nat
        })
    }
}

/// The bits of a byte string, eight for each byte.
pub open spec fn bits_of(bytes: Seq<u8>) -> Seq<bool>
    decreases bytes.len(),
{
    if bytes.len() == 0 {
        Seq::empty()
    } else {
        bits_of(bytes.drop_last()) + to_bits(bytes.last() as nat, 8)
    }
}

/// `n` one bits.
pub open spec fn ones(n: nat) -> Seq<bool> {
    Seq::new(n, |i: int| true)
}

/// Every bit of the string is a one.
pub open spec fn all_ones(bits: Seq<bool>) -> bool {
    forall|i: int| 0 <= i < bits.len() ==> bits[i]
}

/// `prefix` is how `bits` begins.
pub open spec fn begins(bits: Seq<bool>, prefix: Seq<bool>) -> bool {
    prefix.len() <= bits.len() && bits.take(prefix.len() as int) == prefix
}

pub proof fn lemma_to_bits_len(val: nat, len: nat)
    ensures
        to_bits(val, len).len() == len,
    decreases len,
{
    if len > 0 {
        lemma_to_bits_len(val / 2, (len - 1) as nat);
    }
}

pub proof fn lemma_bits_of_len(bytes: Seq<u8>)
    ensures
        bits_of(bytes).len() == 8 * bytes.len(),
    decreases bytes.len(),
{
    if bytes.len() > 0 {
        lemma_bits_of_len(bytes.drop_last());
        lemma_to_bits_len(bytes.last() as nat, 8);
    }
}

/// Writing a number down and reading it back.
pub proof fn lemma_from_to_bits(val: nat, len: nat)
    requires
        val < pow2(len),
    ensures
        from_bits(to_bits(val, len)) == val,
    decreases len,
{
    lemma2_to64();
    if len > 0 {
        lemma_pow2_unfold(len);
        lemma_from_to_bits(val / 2, (len - 1) as nat);
        let rest = to_bits(val / 2, (len - 1) as nat);
        assert(rest.push(val % 2 == 1).drop_last() =~= rest);
    }
}

/// Two numbers of the same width with the same bits are the same number.
pub proof fn lemma_to_bits_injective(a: nat, b: nat, len: nat)
    requires
        a < pow2(len),
        b < pow2(len),
        to_bits(a, len) == to_bits(b, len),
    ensures
        a == b,
{
    lemma_from_to_bits(a, len);
    lemma_from_to_bits(b, len);
}

/// The bits of `hi` shifted left by `m` places and `lo` added.
pub proof fn lemma_to_bits_concat(hi: nat, n: nat, lo: nat, m: nat)
    requires
        lo < pow2(m),
    ensures
        to_bits(hi * pow2(m) + lo, n + m) == to_bits(hi, n) + to_bits(lo, m),
    decreases m,
{
    lemma2_to64();
    if m == 0 {
        assert(to_bits(lo, 0) =~= Seq::empty());
        assert(to_bits(hi, n) + to_bits(lo, m) =~= to_bits(hi, n));
    } else {
        let m1 = (m - 1) as nat;
        lemma_pow2_unfold(m);
        assert(hi * pow2(m) == 2 * (hi * pow2(m1))) by (nonlinear_arith)
            requires
                pow2(m) == 2 * pow2(m1),
        ;
        let v = hi * pow2(m) + lo;
        assert(v / 2 == hi * pow2(m1) + lo / 2);
        assert(v % 2 == lo % 2);
        lemma_to_bits_concat(hi, n, lo / 2, m1);
        assert((n + m - 1) as nat == n + m1);
        assert(to_bits(v, n + m) =~= to_bits(hi, n) + to_bits(lo, m));
    }
}

/// A bit string splits where its number divides.
pub proof fn lemma_to_bits_split(val: nat, n: nat, m: nat)
    ensures
        to_bits(val, n + m) == to_bits(val / pow2(m), n) + to_bits(val % pow2(m), m),
{
    lemma_pow2_pos(m);
    let p = pow2(m) as int;
    vstd::arithmetic::div_mod::lemma_fundamental_div_mod(val as int, p);
    vstd::arithmetic::div_mod::lemma_mod_bound(val as int, p);
    vstd::arithmetic::mul::lemma_mul_is_commutative(p, val as int / p);
    lemma_to_bits_concat(val / pow2(m), n, val % pow2(m), m);
}

/// The number with `n` one bits.
pub proof fn lemma_to_bits_ones(n: nat)
    ensures
        to_bits((pow2(n) - 1) as nat, n) == ones(n),
    decreases n,
{
    lemma2_to64();
    lemma_pow2_pos(n);
    if n == 0 {
        assert(to_bits(0, 0) =~= ones(0));
    } else {
        lemma_pow2_unfold(n);
        lemma_pow2_pos((n - 1) as nat);
        lemma_to_bits_ones((n - 1) as nat);
        let v = (pow2(n) - 1) as nat;
        assert(v / 2 == (pow2((n - 1) as nat) - 1) as nat);
        assert(ones((n - 1) as nat).push(true) =~= ones(n));
    }
}

/// A number whose bits are all ones.
pub proof fn lemma_all_ones_value(val: nat, n: nat)
    requires
        val < pow2(n),
    ensures
        all_ones(to_bits(val, n)) <==> val == pow2(n) - 1,
{
    lemma_pow2_pos(n);
    lemma_to_bits_len(val, n);
    lemma_to_bits_ones(n);
    if all_ones(to_bits(val, n)) {
        assert(to_bits(val, n) =~= ones(n));
        lemma_to_bits_injective(val, (pow2(n) - 1) as nat, n);
    }
}

pub proof fn lemma_bits_of_push(bytes: Seq<u8>, b: u8)
    ensures
        bits_of(bytes.push(b)) == bits_of(bytes) + to_bits(b as nat, 8),
{
    assert(bytes.push(b).drop_last() =~= bytes);
}

pub proof fn lemma_bits_of_concat(a: Seq<u8>, b: Seq<u8>)
    ensures
        bits_of(a + b) == bits_of(a) + bits_of(b),
    decreases b.len(),
{
    if b.len() == 0 {
        assert(a + b =~= a);
        assert(bits_of(a) + bits_of(b) =~= bits_of(a));
    } else {
        lemma_bits_of_concat(a, b.drop_last());
        assert((a + b).drop_last() =~= a + b.drop_last());
        assert(bits_of(a + b) =~= bits_of(a) + bits_of(b));
    }
}

/// Byte strings with the same bits are the same.
pub proof fn lemma_bits_of_injective(a: Seq<u8>, b: Seq<u8>)
    requires
        bits_of(a) == bits_of(b),
    ensures
        a == b,
    decreases a.len(),
{
    lemma_bits_of_len(a);
    lemma_bits_of_len(b);
    if a.len() > 0 {
        let x = bits_of(a.drop_last());
        let y = bits_of(b.drop_last());
        lemma_bits_of_len(a.drop_last());
        lemma_bits_of_len(b.drop_last());
        let p = to_bits(a.last() as nat, 8);
        let q = to_bits(b.last() as nat, 8);
        lemma_to_bits_len(a.last() as nat, 8);
        lemma_to_bits_len(b.last() as nat, 8);
        assert(x =~= (x + p).take(x.len() as int));
        assert(y =~= (y + q).take(x.len() as int));
        assert(p =~= (x + p).skip(x.len() as int));
        assert(q =~= (y + q).skip(x.len() as int));
        lemma_bits_of_injective(a.drop_last(), b.drop_last());
        lemma2_to64();
        lemma_to_bits_injective(a.last() as nat, b.last() as nat, 8);
        assert(a =~= a.drop_last().push(a.last()));
        assert(b =~= b.drop_last().push(b.last()));
    } else {
        assert(a =~= b);
    }
}

/// The bytes of a bit string whose length is a multiple of eight.
pub open spec fn pack(stream: Seq<bool>) -> Seq<u8> {
    Seq::new(stream.len() / 8, |i: int| from_bits(stream.subrange(8 * i, 8 * i + 8)) as u8)
}

/// Reading a number and writing it down again.
pub proof fn lemma_to_from_bits(stream: Seq<bool>)
    ensures
        from_bits(stream) < pow2(stream.len()),
        to_bits(from_bits(stream), stream.len()) == stream,
    decreases stream.len(),
{
    lemma2_to64();
    if stream.len() == 0 {
        assert(stream =~= Seq::empty());
    } else {
        lemma_to_from_bits(stream.drop_last());
        lemma_pow2_unfold(stream.len());
        let v = from_bits(stream);
        assert(v / 2 == from_bits(stream.drop_last()));
        assert((v % 2 == 1) == stream.last());
        assert(stream =~= stream.drop_last().push(stream.last()));
    }
}

pub proof fn lemma_bits_of_pack(stream: Seq<bool>)
    requires
        stream.len() % 8 == 0,
    ensures
        bits_of(pack(stream)) == stream,
    decreases stream.len(),
{
    lemma2_to64();
    if stream.len() == 0 {
        assert(pack(stream) =~= Seq::empty());
        assert(stream =~= Seq::empty());
    } else {
        let n = stream.len() - 8;
        let most = stream.take(n);
        let last = stream.subrange(n, n + 8);
        lemma_bits_of_pack(most);
        lemma_to_from_bits(last);
        assert(pack(stream).drop_last() =~= pack(most)) by {
            assert forall|i: int| 0 <= i < pack(most).len() implies pack(stream)[i] == pack(most)[i] by {
                assert(stream.subrange(8 * i, 8 * i + 8) =~= most.subrange(8 * i, 8 * i + 8));
            }
        }
        assert(8 * (pack(stream).len() - 1) == n);
        assert(pack(stream).last() as nat == from_bits(last));
        assert(most + last =~= stream);
    }
}

/// The bytes with these bits are the packed ones.
pub proof fn lemma_pack_of_bits(bytes: Seq<u8>, stream: Seq<bool>)
    requires
        bits_of(bytes) == stream,
    ensures
        pack(stream) == bytes,
{
    lemma_bits_of_len(bytes);
    lemma_bits_of_pack(stream);
    lemma_bits_of_injective(pack(stream), bytes);
}

} // verus!
