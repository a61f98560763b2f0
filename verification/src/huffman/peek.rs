//! Decoding whole symbols by a look ahead at the next ten bits.
use crate::bits;
use crate::huffman::code;
use crate::huffman::table;
use vstd::arithmetic::power2::*;
use vstd::prelude::*;

verus! {

/// How many bits the table looks ahead.
pub const PEEK_BITS: usize = 10;

/// How many entries the table has.
pub const PEEK_SIZE: usize = 1024;

/// `stream` begins with the code of `sym`, which the table can look up.
pub open spec fn begins_short(stream: Seq<bool>, sym: u8) -> bool {
    code::code(sym).len() <= PEEK_BITS && bits::begins(stream, code::code(sym))
}

/// `stream` begins with a code that the table can look up.
pub open spec fn has_short(stream: Seq<bool>) -> bool {
    exists|sym: u8| #[trigger] begins_short(stream, sym)
}

/// The symbol whose code `stream` begins with.
pub open spec fn short_symbol(stream: Seq<bool>) -> u8 {
    choose|sym: u8| #[trigger] begins_short(stream, sym)
}

/// The entry for the ten bits of `window`: the symbol whose code they begin with
/// and the length of that code, or zeros if there is no such symbol.
pub open spec fn peek_entry(window: nat) -> (u8, u8) {
    let stream = bits::to_bits(window, PEEK_BITS as nat);
    if has_short(stream) {
        (short_symbol(stream), code::code(short_symbol(stream)).len() as u8)
    } else {
        (0, 0)
    }
}

/// The table has the right entry for every window.
pub open spec fn is_peek_table(entries: Seq<(u8, u8)>) -> bool {
    &&& entries.len() == PEEK_SIZE
    &&& forall|w: nat| w < PEEK_SIZE ==> entries[w as int] == #[trigger] peek_entry(w)
}

/// A bit string begins with the code of one symbol at most.
pub proof fn lemma_begins_unique(stream: Seq<bool>, a: u8, b: u8)
    requires
        bits::begins(stream, code::code(a)),
        bits::begins(stream, code::code(b)),
    ensures
        a == b,
{
    let x = code::code(a);
    let y = code::code(b);
    if x.len() < y.len() {
        assert(y.take(x.len() as int) =~= x);
        code::lemma_prefix_free(b, x.len() as int);
        assert(code::is_code(x));
    } else if y.len() < x.len() {
        assert(x.take(y.len() as int) =~= y);
        code::lemma_prefix_free(a, y.len() as int);
        assert(code::is_code(y));
    } else {
        code::lemma_code_injective(a, b);
    }
}

/// The windows that begin with a code are those with its number on top.
proof fn lemma_window(window: nat, sym: u8)
    requires
        window < PEEK_SIZE,
        table::code_len(sym) <= PEEK_BITS,
    ensures
        begins_short(bits::to_bits(window, 10), sym) <==> window / pow2(
            (10 - table::code_len(sym)) as nat,
        ) == table::code_value(sym),
{
    lemma2_to64();
    code::lemma_code_len(sym);
    let n = table::code_len(sym);
    let m = (10 - n) as nat;
    lemma_pow2_pos(m);
    lemma_pow2_adds(n, m);
    bits::lemma_to_bits_split(window, n, m);
    let hi = window / pow2(m);
    vstd::arithmetic::div_mod::lemma_multiply_divide_lt(
        window as int,
        pow2(m) as int,
        pow2(n) as int,
    );
    bits::lemma_to_bits_len(hi, n);
    bits::lemma_to_bits_len(window, 10);
    assert(bits::to_bits(window, 10).take(n as int) =~= bits::to_bits(hi, n));
    if begins_short(bits::to_bits(window, 10), sym) {
        bits::lemma_to_bits_injective(hi, table::code_value(sym), n);
    }
}

/// What the table holds once the symbols below `bound` have been entered.
spec fn entered(window: nat, bound: int) -> (u8, u8) {
    if has_short(bits::to_bits(window, 10)) && short_symbol(bits::to_bits(window, 10)) < bound {
        peek_entry(window)
    } else {
        (0, 0)
    }
}

/// Entering one more symbol changes the windows that begin with its code.
proof fn lemma_entered(window: nat, sym: u8)
    requires
        window < PEEK_SIZE,
    ensures
        entered(window, sym + 1) == (if begins_short(bits::to_bits(window, 10), sym) {
            (sym, table::code_len(sym) as u8)
        } else {
            entered(window, sym as int)
        }),
{
    let stream = bits::to_bits(window, 10);
    code::lemma_code_len(sym);
    if begins_short(stream, sym) {
        lemma_begins_unique(stream, sym, short_symbol(stream));
    }
}

/// Builds the table.
#[verifier::rlimit(40)]
pub fn build_peek_table() -> (entries: [(u8, u8); 1024])
    ensures
        is_peek_table(entries@),
{
    let mut entries: [(u8, u8); 1024] = [(0u8, 0u8); 1024];
    let mut sym: usize = 0;
    while sym < 256
        invariant
            sym <= 256,
            forall|w: int|
                0 <= w < 1024 ==> #[trigger] entries@[w] == entered(w as nat, sym as int),
        decreases 256 - sym,
    {
        let (nbits, code) = table::ENCODE_TABLE[sym];
        let ghost s = sym as u8;
        proof {
            assert(nbits == table::code_len(s) && code == table::code_value(s)) by {
                reveal(table::code_len);
                reveal(table::code_value);
            }
            code::lemma_code_len(s);
            assert forall|w: int| 0 <= w < 1024 implies #[trigger] entered(w as nat, sym + 1) == (
            if begins_short(bits::to_bits(w as nat, 10), s) {
                (s, nbits as u8)
            } else {
                entered(w as nat, sym as int)
            }) by {
                lemma_entered(w as nat, s);
            }
        }
        if nbits <= PEEK_BITS {
            let m: usize = PEEK_BITS - nbits;
            proof {
                lemma2_to64();
                lemma_pow2_pos(m as nat);
                lemma_pow2_adds(nbits as nat, m as nat);
                if m < 5 {
                    lemma_pow2_strictly_increases(m as nat, 5);
                }
                let p = pow2(m as nat);
                let q = pow2(nbits as nat);
                assert(code * p + p <= q * p) by (nonlinear_arith)
                    requires
                        code < q,
                        0 < p,
                ;
                vstd::bits::lemma_u64_shl_is_mul(code, m as u64);
                vstd::bits::lemma_usize_pow2_no_overflow(m as nat);
                vstd::bits::lemma_usize_shl_is_mul(1, m);
                assert forall|w: int| 0 <= w < 1024 implies (#[trigger] begins_short(
                    bits::to_bits(w as nat, 10),
                    s,
                ) <==> code * p <= w < code * p + p) by {
                    lemma_window(w as nat, s);
                    vstd::arithmetic::div_mod::lemma_fundamental_div_mod(w, p as int);
                    vstd::arithmetic::div_mod::lemma_mod_bound(w, p as int);
                    let d = w / p as int;
                    vstd::arithmetic::mul::lemma_mul_is_commutative(p as int, d);
                    if d == code {
                    } else if d < code {
                        assert(d * p + p <= code * p) by (nonlinear_arith)
                            requires
                                d < code,
                                0 < p,
                        ;
                    } else {
                        assert(code * p + p <= d * p) by (nonlinear_arith)
                            requires
                                code < d,
                                0 < p,
                        ;
                    }
                }
            }
            let prefix: usize = (code << m) as usize;
            let count: usize = 1usize << m;
            let mut j: usize = 0;
            while j < count
                invariant
                    j <= count,
                    prefix + count <= 1024,
                    sym < 256,
                    s == sym,
                    forall|w: int|
                        0 <= w < 1024 ==> #[trigger] entries@[w] == (if prefix <= w < prefix + j {
                            (s, nbits as u8)
                        } else {
                            entered(w as nat, sym as int)
                        }),
                decreases count - j,
            {
                entries[prefix + j] = (sym as u8, nbits as u8);
                j = j + 1;
            }
        }
        proof {
            assert forall|w: int| 0 <= w < 1024 implies #[trigger] entries@[w] == entered(
                w as nat,
                sym + 1,
            ) by {
                assert(entered(w as nat, sym + 1) == entered(w as nat, sym + 1));
                if begins_short(bits::to_bits(w as nat, 10), s) {
                    assert(nbits <= PEEK_BITS);
                }
            }
        }
        sym = sym + 1;
    }
    proof {
        assert forall|w: nat| w < PEEK_SIZE implies entries@[w as int] == #[trigger] peek_entry(
            w,
        ) by {
            assert(entries@[w as int] == entered(w, 256));
        }
    }
    entries
}

} // verus!
