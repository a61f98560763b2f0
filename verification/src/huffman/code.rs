//! What a Huffman-coded bit string stands for.
use crate::bits;
use crate::huffman::table;
use vstd::arithmetic::power2::*;
use vstd::prelude::*;

verus! {

/// The code of a symbol as a bit string.
pub open spec fn code(sym: u8) -> Seq<bool> {
    bits::to_bits(table::code_value(sym), table::code_len(sym))
}

/// Some symbol has this code.
pub open spec fn is_code(pending: Seq<bool>) -> bool {
    exists|sym: u8| #[trigger] code(sym) == pending
}

/// The symbol that has this code.
pub open spec fn symbol_of(pending: Seq<bool>) -> u8 {
    choose|sym: u8| #[trigger] code(sym) == pending
}

/// The codes of a string of symbols, one after the other.
pub open spec fn encoded(symbols: Seq<u8>) -> Seq<bool>
    decreases symbols.len(),
{
    if symbols.len() == 0 {
        Seq::empty()
    } else {
        encoded(symbols.drop_last()) + code(symbols.last())
    }
}

/// How far a bit string has been read: the symbols whose codes are complete,
/// and the bits after the last of them.
#[verifier::ext_equal]
pub struct Reading {
    pub symbols: Seq<u8>,
    pub rest: Seq<bool>,
}

/// Reads one more bit.
pub open spec fn read_bit(at: Reading, bit: bool) -> Reading {
    let pending = at.rest.push(bit);
    if is_code(pending) {
        Reading { symbols: at.symbols.push(symbol_of(pending)), rest: Seq::empty() }
    } else {
        Reading { symbols: at.symbols, rest: pending }
    }
}

/// Reads further bits.
pub open spec fn read_on(at: Reading, more: Seq<bool>) -> Reading
    decreases more.len(),
{
    if more.len() == 0 {
        at
    } else {
        read_bit(read_on(at, more.drop_last()), more.last())
    }
}

/// Nothing read yet.
pub open spec fn start() -> Reading {
    Reading { symbols: Seq::empty(), rest: Seq::empty() }
}

/// Reads a whole bit string.
pub open spec fn read(stream: Seq<bool>) -> Reading {
    read_on(start(), stream)
}

/// What may follow the last code: at most `limit` bits, all of them ones, the
/// beginning of the end-of-string code.
pub open spec fn is_padding(rest: Seq<bool>, limit: nat) -> bool {
    rest.len() <= limit && bits::all_ones(rest)
}

/// What may follow the last code of a string, up to the end of its last byte.
pub const MOST_PADDING: usize = 7;

/// The bytes are the codes of symbols, and padding.
pub open spec fn is_accepted(src: Seq<u8>) -> bool {
    is_padding(read(bits::bits_of(src)).rest, MOST_PADDING as nat)
}

/// The string that the bytes are the code of.
pub open spec fn decoded(src: Seq<u8>) -> Option<Seq<u8>> {
    if is_accepted(src) {
        Some(read(bits::bits_of(src)).symbols)
    } else {
        None
    }
}

pub proof fn lemma_limit_room(len: int)
    requires
        0 <= len <= table::MAX_CODE_LEN,
    ensures
        table::code_limit(len) < pow2(len as nat),
    decreases 30 - len,
{
    lemma2_to64();
    if len == 30 {
        table::lemma_limits(30);
    } else {
        table::lemma_limits(len + 1);
        lemma_limit_room(len + 1);
        lemma_pow2_unfold((len + 1) as nat);
    }
}

pub proof fn lemma_code_len(sym: u8)
    ensures
        code(sym).len() == table::code_len(sym),
        5 <= code(sym).len() <= 30,
        table::code_value(sym) < pow2(table::code_len(sym)),
{
    table::lemma_code_of_symbol(sym);
    lemma_limit_room(table::code_len(sym) as int);
    bits::lemma_to_bits_len(table::code_value(sym), table::code_len(sym));
}

/// No two symbols have the same code.
pub proof fn lemma_code_injective(a: u8, b: u8)
    requires
        code(a) == code(b),
    ensures
        a == b,
{
    lemma_code_len(a);
    lemma_code_len(b);
    bits::lemma_to_bits_injective(
        table::code_value(a),
        table::code_value(b),
        table::code_len(a),
    );
    table::lemma_code_of_symbol(a);
    table::lemma_code_of_symbol(b);
}

pub proof fn lemma_symbol_of_code(sym: u8)
    ensures
        is_code(code(sym)),
        symbol_of(code(sym)) == sym,
{
    lemma_code_injective(symbol_of(code(sym)), sym);
}

/// A value that has reached the limit of its length is no code.
pub proof fn lemma_open_value(value: nat, len: nat)
    requires
        value < pow2(len),
        0 <= len <= 30,
        table::code_limit(len as int) <= value,
    ensures
        !is_code(bits::to_bits(value, len)),
{
    if is_code(bits::to_bits(value, len)) {
        let sym = symbol_of(bits::to_bits(value, len));
        lemma_code_len(sym);
        bits::lemma_to_bits_len(value, len);
        bits::lemma_to_bits_injective(value, table::code_value(sym), len);
        table::lemma_code_of_symbol(sym);
    }
}

/// A value below the limit of its length, and not below twice the limit of the
/// length before, is a code.
pub proof fn lemma_closed_value(value: nat, len: nat)
    requires
        0 < len <= 30,
        2 * table::code_limit(len - 1) <= value < table::code_limit(len as int),
    ensures
        is_code(bits::to_bits(value, len)),
        symbol_of(bits::to_bits(value, len)) == table::ranked_symbol(len as int, value),
{
    table::lemma_symbol_of_code(len as int, value);
    let sym = table::ranked_symbol(len as int, value);
    assert(code(sym) == bits::to_bits(value, len));
    lemma_symbol_of_code(sym);
}

proof fn lemma_limits_grow(a: int, b: int)
    requires
        0 <= a < b <= 30,
    ensures
        table::code_limit(a) * pow2((b - a) as nat) <= 2 * table::code_limit(b - 1),
    decreases b - a,
{
    lemma2_to64();
    if b == a + 1 {
        assert(pow2((b - a) as nat) == 2);
        assert(table::code_limit(a) * 2 == 2 * table::code_limit(a));
    } else {
        lemma_limits_grow(a, b - 1);
        table::lemma_limits(b - 1);
        lemma_pow2_unfold((b - a) as nat);
        let p = pow2((b - 1 - a) as nat);
        let l = table::code_limit(a);
        assert(l * (2 * p) == 2 * (l * p)) by (nonlinear_arith);
    }
}

/// What begins a code, short of the whole, is no code.
pub proof fn lemma_prefix_free(sym: u8, k: int)
    requires
        0 <= k < code(sym).len(),
    ensures
        !is_code(code(sym).take(k)),
{
    lemma_code_len(sym);
    table::lemma_code_of_symbol(sym);
    let len = table::code_len(sym);
    let m = (len - k) as nat;
    let value = table::code_value(sym);
    lemma_pow2_pos(m);
    bits::lemma_to_bits_split(value, k as nat, m);
    let hi = value / pow2(m);
    bits::lemma_to_bits_len(hi, k as nat);
    assert(code(sym).take(k) =~= bits::to_bits(hi, k as nat));
    lemma_limits_grow(k, len as int);
    lemma_pow2_adds(k as nat, m);
    let p = pow2(m) as int;
    let lim = table::code_limit(k) as int;
    assert(lim <= hi) by {
        vstd::arithmetic::div_mod::lemma_div_is_ordered(lim * p, value as int, p);
        vstd::arithmetic::div_mod::lemma_div_by_multiple(lim, p);
    }
    assert(hi < pow2(k as nat)) by {
        assert(pow2(k as nat) * pow2(m) == pow2(len));
        vstd::arithmetic::div_mod::lemma_multiply_divide_lt(
            value as int,
            p,
            pow2(k as nat) as int,
        );
    }
    lemma_open_value(hi, k as nat);
}

/// A run of ones is no code.
pub proof fn lemma_ones_open(n: nat)
    ensures
        !is_code(bits::ones(n)),
{
    if n <= 30 {
        lemma_limit_room(n as int);
        bits::lemma_to_bits_ones(n);
        lemma_open_value((pow2(n) - 1) as nat, n);
    } else if is_code(bits::ones(n)) {
        lemma_code_len(symbol_of(bits::ones(n)));
    }
}

pub proof fn lemma_read_on_concat(at: Reading, a: Seq<bool>, b: Seq<bool>)
    ensures
        read_on(at, a + b) == read_on(read_on(at, a), b),
    decreases b.len(),
{
    if b.len() == 0 {
        assert(a + b =~= a);
    } else {
        assert((a + b).drop_last() =~= a + b.drop_last());
        lemma_read_on_concat(at, a, b.drop_last());
    }
}

pub proof fn lemma_read_on_push(at: Reading, a: Seq<bool>, bit: bool)
    ensures
        read_on(at, a.push(bit)) == read_bit(read_on(at, a), bit),
{
    assert(a.push(bit).drop_last() =~= a);
}

/// What was read before does not matter for what is read next.
pub proof fn lemma_read_on_shift(before: Seq<u8>, at: Reading, more: Seq<bool>)
    ensures
        ({
            let moved = Reading { symbols: before + at.symbols, rest: at.rest };
            let end = read_on(at, more);
            read_on(moved, more) == (Reading { symbols: before + end.symbols, rest: end.rest })
        }),
    decreases more.len(),
{
    let moved = Reading { symbols: before + at.symbols, rest: at.rest };
    if more.len() > 0 {
        lemma_read_on_shift(before, at, more.drop_last());
        let mid = read_on(at, more.drop_last());
        let pending = mid.rest.push(more.last());
        assert((before + mid.symbols).push(symbol_of(pending)) =~= before + mid.symbols.push(
            symbol_of(pending),
        ));
    }
}

/// Bits that no code completes stay where they are.
pub proof fn lemma_read_on_open(at: Reading, more: Seq<bool>)
    requires
        forall|k: int| 0 < k <= more.len() ==> !is_code(at.rest + #[trigger] more.take(k)),
    ensures
        read_on(at, more) == (Reading { symbols: at.symbols, rest: at.rest + more }),
    decreases more.len(),
{
    if more.len() == 0 {
        assert(at.rest + more =~= at.rest);
    } else {
        let most = more.drop_last();
        assert forall|k: int| 0 < k <= most.len() implies !is_code(
            at.rest + #[trigger] most.take(k),
        ) by {
            assert(most.take(k) =~= more.take(k));
        }
        lemma_read_on_open(at, most);
        assert((at.rest + most).push(more.last()) =~= at.rest + more.take(more.len() as int));
        assert(more.take(more.len() as int) =~= more);
    }
}

/// Reading a code, from where no bits are pending, gives its symbol.
pub proof fn lemma_read_code(at: Reading, sym: u8)
    requires
        at.rest.len() == 0,
    ensures
        read_on(at, code(sym)) == (Reading {
            symbols: at.symbols.push(sym),
            rest: Seq::<bool>::empty(),
        }),
{
    lemma_code_len(sym);
    let whole = code(sym);
    let most = whole.drop_last();
    assert forall|k: int| 0 < k <= most.len() implies !is_code(at.rest + #[trigger] most.take(k)) by {
        assert(at.rest + most.take(k) =~= whole.take(k));
        lemma_prefix_free(sym, k);
    }
    lemma_read_on_open(at, most);
    assert((at.rest + most).push(whole.last()) =~= whole);
    lemma_symbol_of_code(sym);
}

/// Ones after a symbol are no symbol.
pub proof fn lemma_read_ones(at: Reading, n: nat)
    requires
        bits::all_ones(at.rest),
    ensures
        read_on(at, bits::ones(n)) == (Reading {
            symbols: at.symbols,
            rest: at.rest + bits::ones(n),
        }),
{
    let more = bits::ones(n);
    assert forall|k: int| 0 < k <= more.len() implies !is_code(at.rest + #[trigger] more.take(k)) by {
        assert(at.rest + more.take(k) =~= bits::ones((at.rest.len() + k) as nat));
        lemma_ones_open((at.rest.len() + k) as nat);
    }
    lemma_read_on_open(at, more);
}

/// Thirty pending bits or more never become a symbol.
pub proof fn lemma_read_stuck(at: Reading, more: Seq<bool>)
    requires
        at.rest.len() >= 30,
    ensures
        read_on(at, more) == (Reading { symbols: at.symbols, rest: at.rest + more }),
{
    assert forall|k: int| 0 < k <= more.len() implies !is_code(at.rest + #[trigger] more.take(k)) by {
        let pending = at.rest + more.take(k);
        if is_code(pending) {
            lemma_code_len(symbol_of(pending));
        }
    }
    lemma_read_on_open(at, more);
}

pub proof fn lemma_encoded_push(symbols: Seq<u8>, sym: u8)
    ensures
        encoded(symbols.push(sym)) == encoded(symbols) + code(sym),
{
    assert(symbols.push(sym).drop_last() =~= symbols);
}

/// The bits read are the codes of the symbols and the bits that are left.
pub proof fn lemma_read_decomposes(stream: Seq<bool>)
    ensures
        encoded(read(stream).symbols) + read(stream).rest == stream,
    decreases stream.len(),
{
    if stream.len() == 0 {
        assert(encoded(read(stream).symbols) + read(stream).rest =~= stream);
    } else {
        lemma_read_decomposes(stream.drop_last());
        let mid = read(stream.drop_last());
        let pending = mid.rest.push(stream.last());
        assert(stream =~= stream.drop_last().push(stream.last()));
        assert(encoded(mid.symbols) + pending =~= stream);
        if is_code(pending) {
            let sym = symbol_of(pending);
            lemma_encoded_push(mid.symbols, sym);
            assert(encoded(mid.symbols.push(sym)) + Seq::<bool>::empty() =~= stream);
        }
    }
}

/// Reading the codes of a string gives the string.
pub proof fn lemma_read_encoded(symbols: Seq<u8>)
    ensures
        read(encoded(symbols)) == (Reading { symbols, rest: Seq::<bool>::empty() }),
    decreases symbols.len(),
{
    if symbols.len() == 0 {
        assert(symbols =~= Seq::empty());
    } else {
        let most = symbols.drop_last();
        lemma_read_encoded(most);
        lemma_read_on_concat(start(), encoded(most), code(symbols.last()));
        lemma_read_code(read(encoded(most)), symbols.last());
        assert(most.push(symbols.last()) =~= symbols);
    }
}

/// Every symbol takes at least five bits.
pub proof fn lemma_encoded_len(symbols: Seq<u8>)
    ensures
        5 * symbols.len() <= encoded(symbols).len() <= 30 * symbols.len(),
    decreases symbols.len(),
{
    if symbols.len() > 0 {
        lemma_encoded_len(symbols.drop_last());
        lemma_code_len(symbols.last());
    }
}

/// What further bits add to a reading.
pub proof fn lemma_read_further(done: Seq<bool>, more: Seq<bool>)
    ensures
        ({
            let at = Reading { symbols: Seq::<u8>::empty(), rest: read(done).rest };
            let after = read_on(at, more);
            read(done + more) == (Reading {
                symbols: read(done).symbols + after.symbols,
                rest: after.rest,
            })
        }),
{
    let at = Reading { symbols: Seq::<u8>::empty(), rest: read(done).rest };
    lemma_read_on_concat(start(), done, more);
    lemma_read_on_shift(read(done).symbols, at, more);
    assert(read(done).symbols + at.symbols =~= read(done).symbols);
}

/// Once the end-of-string code has been read, nothing is read any more.
pub proof fn lemma_read_refused(stream: Seq<bool>, prefix: Seq<bool>)
    requires
        bits::begins(stream, prefix),
        read(prefix).rest.len() >= 30,
    ensures
        read(stream).symbols == read(prefix).symbols,
        read(stream).rest.len() >= 30,
{
    let n = prefix.len() as int;
    lemma_read_on_concat(start(), prefix, stream.skip(n));
    assert(prefix + stream.skip(n) =~= stream);
    lemma_read_stuck(read(prefix), stream.skip(n));
}

/// A bit string of symbols has at least five bits for each.
pub proof fn lemma_read_len(stream: Seq<bool>)
    ensures
        5 * read(stream).symbols.len() + read(stream).rest.len() <= stream.len(),
{
    lemma_read_decomposes(stream);
    lemma_encoded_len(read(stream).symbols);
}

/// How many one bits fill `n` bits up to whole bytes.
pub open spec fn fill(n: nat) -> nat {
    (7 - (n + 7) % 8) as nat
}

/// The bytes that a string of symbols is coded as: the codes, and ones up to the
/// end of the last byte.
pub open spec fn encoding(symbols: Seq<u8>) -> Seq<u8> {
    bits::pack(encoded(symbols) + bits::ones(fill(encoded(symbols).len())))
}

pub proof fn lemma_encoded_concat(a: Seq<u8>, b: Seq<u8>)
    ensures
        encoded(a + b) == encoded(a) + encoded(b),
    decreases b.len(),
{
    if b.len() == 0 {
        assert(a + b =~= a);
        assert(encoded(a) + encoded(b) =~= encoded(a));
    } else {
        lemma_encoded_concat(a, b.drop_last());
        assert((a + b).drop_last() =~= a + b.drop_last());
        assert(encoded(a + b) =~= encoded(a) + encoded(b));
    }
}

/// The bits of the coded string.
pub proof fn lemma_encoding_bits(symbols: Seq<u8>)
    ensures
        bits::bits_of(encoding(symbols)) == encoded(symbols) + bits::ones(
            fill(encoded(symbols).len()),
        ),
        encoding(symbols).len() == (encoded(symbols).len() + 7) / 8,
{
    bits::lemma_bits_of_pack(encoded(symbols) + bits::ones(fill(encoded(symbols).len())));
}

/// If at least as many bits are left as were read, no symbol was completed.
pub proof fn lemma_read_kept(at: Reading, more: Seq<bool>)
    requires
        read_on(at, more).rest.len() >= more.len(),
    ensures
        read_on(at, more) == (Reading { symbols: at.symbols, rest: at.rest + more }),
    decreases more.len(),
{
    if more.len() == 0 {
        assert(at.rest + more =~= at.rest);
    } else {
        let most = more.drop_last();
        lemma_read_kept(at, most);
        assert((at.rest + most).push(more.last()) =~= at.rest + more);
    }
}

/// Bytes decode to at most twice as many symbols.
pub proof fn lemma_symbols_len(src: Seq<u8>)
    ensures
        read(bits::bits_of(src)).symbols.len() <= 2 * src.len(),
{
    bits::lemma_bits_of_len(src);
    lemma_read_len(bits::bits_of(src));
}

} // verus!
