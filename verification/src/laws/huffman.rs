//! Encoding and decoding undo each other. `code::decoded` is what `decode` makes of
//! its input, `slice::decoded` what `decode_to_slice` makes of it.
use crate::bits;
use crate::huffman::code;
use crate::huffman::peek;
use crate::huffman::slice;
use vstd::prelude::*;

verus! {

/// Decoding what was encoded gives it back.
pub proof fn law_decode_encode(symbols: Seq<u8>)
    ensures
        code::decoded(code::encoding(symbols)) == Some(symbols),
{
    let body = code::encoded(symbols);
    let pad = bits::ones(code::fill(body.len()));
    code::lemma_encoding_bits(symbols);
    code::lemma_read_encoded(symbols);
    code::lemma_read_on_concat(code::start(), body, pad);
    code::lemma_read_ones(code::read(body), code::fill(body.len()));
    assert(code::read(body).rest + pad =~= pad);
}

/// Encoding what was decoded gives it back.
pub proof fn law_encode_decode(src: Seq<u8>)
    requires
        code::is_accepted(src),
    ensures
        code::encoding(code::decoded(src)->0) == src,
{
    let stream = bits::bits_of(src);
    let end = code::read(stream);
    let body = code::encoded(end.symbols);
    code::lemma_read_decomposes(stream);
    bits::lemma_bits_of_len(src);
    assert(code::fill(body.len()) == end.rest.len());
    assert(end.rest =~= bits::ones(end.rest.len()));
    bits::lemma_pack_of_bits(src, stream);
}

/// `decode` accepts the encodings and nothing else.
pub proof fn law_accepted_are_encodings(src: Seq<u8>)
    ensures
        code::is_accepted(src) <==> exists|symbols: Seq<u8>| #[trigger]
            code::encoding(symbols) == src,
{
    if code::is_accepted(src) {
        law_encode_decode(src);
    }
    if exists|symbols: Seq<u8>| #[trigger] code::encoding(symbols) == src {
        let symbols = choose|symbols: Seq<u8>| #[trigger] code::encoding(symbols) == src;
        law_decode_encode(symbols);
    }
}

/// What `decode` accepts, `decode_to_slice` accepts too, and decodes in the same
/// way. What only `decode_to_slice` accepts has from eight to ten ones after its
/// last code.
pub proof fn law_slice_agrees(src: Seq<u8>)
    ensures
        code::is_accepted(src) ==> slice::decoded(src) == code::decoded(src),
        slice::is_accepted(src) && !code::is_accepted(src) ==> {
            let rest = code::read(bits::bits_of(src)).rest;
            bits::all_ones(rest) && 8 <= rest.len() <= 10
        },
{
}

/// Decoding into a slice what was encoded gives it back.
pub proof fn law_slice_encode(symbols: Seq<u8>)
    ensures
        slice::decoded(code::encoding(symbols)) == Some(symbols),
{
    law_decode_encode(symbols);
    law_slice_agrees(code::encoding(symbols));
}

/// What either decoder accepts are the codes of the symbols that it hands out, and
/// ones: at most seven, or ten in a slice. No bit is made up.
pub proof fn law_nothing_made_up(src: Seq<u8>)
    ensures
        code::is_accepted(src) ==> exists|padding: nat|
            padding <= 7 && bits::bits_of(src) == code::encoded(code::decoded(src)->0)
                + #[trigger] bits::ones(padding),
        slice::is_accepted(src) ==> exists|padding: nat|
            padding <= 10 && bits::bits_of(src) == code::encoded(slice::decoded(src)->0)
                + #[trigger] bits::ones(padding),
{
    let stream = bits::bits_of(src);
    let end = code::read(stream);
    code::lemma_read_decomposes(stream);
    if slice::is_accepted(src) {
        assert(end.rest =~= bits::ones(end.rest.len()));
        assert(stream == code::encoded(end.symbols) + bits::ones(end.rest.len()));
    }
}

/// Two strings with the same encoding are the same.
pub proof fn law_encoding_injective(a: Seq<u8>, b: Seq<u8>)
    requires
        code::encoding(a) == code::encoding(b),
    ensures
        a == b,
{
    law_decode_encode(a);
    law_decode_encode(b);
}

/// No code begins another.
pub proof fn law_prefix_free(a: u8, b: u8)
    requires
        bits::begins(code::code(a), code::code(b)),
    ensures
        a == b,
{
    let n = code::code(b).len() as int;
    if n < code::code(a).len() {
        code::lemma_prefix_free(a, n);
        assert(code::is_code(code::code(a).take(n)));
    } else {
        assert(code::code(a).take(n) =~= code::code(a));
        code::lemma_code_injective(a, b);
    }
}

/// Bytes decode to at most twice as many symbols, and symbols are encoded in at
/// most four times as many bytes.
pub proof fn law_expansion(src: Seq<u8>)
    ensures
        code::read(bits::bits_of(src)).symbols.len() <= 2 * src.len(),
        code::encoding(src).len() <= 4 * src.len(),
{
    code::lemma_symbols_len(src);
    code::lemma_encoding_bits(src);
    code::lemma_encoded_len(src);
}

/// The codes of a string are those of its symbols, one after the other.
pub proof fn law_encoded(a: Seq<u8>, sym: u8, b: Seq<u8>)
    ensures
        code::encoded(Seq::empty()) == Seq::<bool>::empty(),
        code::encoded(a + seq![sym] + b) == code::encoded(a) + code::code(sym) + code::encoded(b),
{
    code::lemma_encoded_concat(a + seq![sym], b);
    assert(a + seq![sym] =~= a.push(sym));
    code::lemma_encoded_push(a, sym);
}

/// An encoding is the codes of the symbols, and less than eight ones.
pub proof fn law_encoding(symbols: Seq<u8>)
    ensures
        exists|padding: nat|
            padding < 8 && bits::bits_of(code::encoding(symbols)) == code::encoded(symbols)
                + #[trigger] bits::ones(padding),
{
    code::lemma_encoding_bits(symbols);
    assert(code::fill(code::encoded(symbols).len()) < 8);
}

/// Bits are read as the codes of symbols, as far as these go: what is left begins
/// with no code.
pub proof fn law_read(stream: Seq<bool>)
    ensures
        code::encoded(code::read(stream).symbols) + code::read(stream).rest == stream,
        forall|sym: u8| !bits::begins(code::read(stream).rest, #[trigger] code::code(sym)),
{
    code::lemma_read_decomposes(stream);
    lemma_rest_open(stream);
    let rest = code::read(stream).rest;
    assert forall|sym: u8| !bits::begins(rest, #[trigger] code::code(sym)) by {
        let n = code::code(sym).len() as int;
        if bits::begins(rest, code::code(sym)) {
            assert(code::is_code(rest.take(n)));
        }
    }
}

proof fn lemma_rest_open(stream: Seq<bool>)
    ensures
        forall|k: int|
            0 <= k <= code::read(stream).rest.len() ==> !code::is_code(
                #[trigger] code::read(stream).rest.take(k),
            ),
    decreases stream.len(),
{
    let rest = code::read(stream).rest;
    if stream.len() == 0 {
        assert forall|k: int| 0 <= k <= rest.len() implies !code::is_code(
            #[trigger] rest.take(k),
        ) by {
            lemma_empty_open(rest.take(k));
        }
    } else {
        let before = code::read(stream.drop_last()).rest;
        lemma_rest_open(stream.drop_last());
        let pending = before.push(stream.last());
        assert forall|k: int| 0 <= k <= rest.len() implies !code::is_code(
            #[trigger] rest.take(k),
        ) by {
            if code::is_code(pending) {
                lemma_empty_open(rest.take(k));
            } else if k < pending.len() {
                assert(rest.take(k) =~= before.take(k));
            } else {
                assert(rest.take(k) =~= pending);
            }
        }
    }
}

proof fn lemma_empty_open(none: Seq<bool>)
    requires
        none.len() == 0,
    ensures
        !code::is_code(none),
{
    if code::is_code(none) {
        code::lemma_code_len(code::symbol_of(none));
    }
}

/// Which padding `decode_to_slice` accepts. Let the string have symbols with codes
/// of ten bits at most, up to one with a longer code; from there on the bits are
/// read in fours. The ones at the end may be seven, and those few more that are left
/// over from the fours.
pub proof fn law_slice_padding(src: Seq<u8>, short: Seq<u8>, others: Seq<u8>, padding: nat)
    requires
        bits::bits_of(src) == code::encoded(short + others) + bits::ones(padding),
        forall|i: int| 0 <= i < short.len() ==> code::code(#[trigger] short[i]).len() <= 10,
        others.len() > 0 ==> code::code(others[0]).len() > 10,
    ensures
        slice::is_accepted(src) <==> padding <= 7 + (code::encoded(others).len() + padding) % 4,
        slice::is_accepted(src) ==> slice::decoded(src) == Some(short + others),
{
    let stream = bits::bits_of(src);
    let tail = code::encoded(others) + bits::ones(padding);
    code::lemma_encoded_concat(short, others);
    assert(stream =~= code::encoded(short) + tail);
    lemma_no_short(others, padding);
    lemma_short_len(short, tail);
    code::lemma_read_encoded(short + others);
    code::lemma_read_on_concat(
        code::start(),
        code::encoded(short + others),
        bits::ones(padding),
    );
    code::lemma_read_ones(code::read(code::encoded(short + others)), padding);
    assert(Seq::<bool>::empty() + bits::ones(padding) =~= bits::ones(padding));
}

proof fn lemma_no_short(others: Seq<u8>, padding: nat)
    requires
        others.len() > 0 ==> code::code(others[0]).len() > 10,
    ensures
        !peek::has_short(code::encoded(others) + bits::ones(padding)),
{
    let tail = code::encoded(others) + bits::ones(padding);
    if peek::has_short(tail) {
        let sym = peek::short_symbol(tail);
        let n = code::code(sym).len() as int;
        if others.len() > 0 {
            let rest = others.skip(1);
            assert(seq![others[0]] + rest =~= others);
            lemma_encoded_front(others[0], rest);
            let long = code::code(others[0]);
            assert(tail.take(long.len() as int) =~= long);
            peek::lemma_begins_unique(tail, sym, others[0]);
        } else {
            assert(tail.take(n) =~= bits::ones(n as nat));
            code::lemma_ones_open(n as nat);
            assert(code::is_code(tail.take(n)));
        }
    }
}

proof fn lemma_encoded_front(sym: u8, rest: Seq<u8>)
    ensures
        code::encoded(seq![sym] + rest) == code::code(sym) + code::encoded(rest),
{
    code::lemma_encoded_concat(seq![sym], rest);
    assert(seq![sym] =~= Seq::<u8>::empty().push(sym));
    code::lemma_encoded_push(Seq::empty(), sym);
    assert(Seq::<bool>::empty() + code::code(sym) =~= code::code(sym));
}

proof fn lemma_short_len(short: Seq<u8>, tail: Seq<bool>)
    requires
        forall|i: int| 0 <= i < short.len() ==> code::code(#[trigger] short[i]).len() <= 10,
        !peek::has_short(tail),
    ensures
        slice::short_len(code::encoded(short) + tail) == code::encoded(short).len(),
    decreases short.len(),
{
    let stream = code::encoded(short) + tail;
    if short.len() == 0 {
        assert(stream =~= tail);
    } else {
        let sym = short[0];
        let rest = short.skip(1);
        assert(seq![sym] + rest =~= short);
        lemma_encoded_front(sym, rest);
        let head = code::code(sym);
        code::lemma_code_len(sym);
        assert(stream.take(head.len() as int) =~= head);
        assert(peek::begins_short(stream, sym));
        peek::lemma_begins_unique(stream, sym, peek::short_symbol(stream));
        assert(stream.skip(head.len() as int) =~= code::encoded(rest) + tail);
        assert forall|i: int| 0 <= i < rest.len() implies code::code(
            #[trigger] rest[i],
        ).len() <= 10 by {
            assert(rest[i] == short[i + 1]);
        }
        lemma_short_len(rest, tail);
    }
}

/// A window of the look-ahead table tells the symbol that it begins with, if there is
/// one with a code of ten bits at most.
pub proof fn law_peek(window: nat, sym: u8)
    requires
        window < 1024,
        code::code(sym).len() <= 10,
        bits::begins(bits::to_bits(window, 10), code::code(sym)),
    ensures
        peek::peek_entry(window) == (sym, code::code(sym).len() as u8),
{
    let stream = bits::to_bits(window, 10);
    assert(peek::begins_short(stream, sym));
    peek::lemma_begins_unique(stream, sym, peek::short_symbol(stream));
}

/// A window that begins with no code of ten bits at most tells so.
pub proof fn law_peek_none(window: nat)
    requires
        window < 1024,
        forall|sym: u8|
            code::code(sym).len() <= 10 ==> !bits::begins(
                bits::to_bits(window, 10),
                #[trigger] code::code(sym),
            ),
    ensures
        peek::peek_entry(window) == (0u8, 0u8),
{
}

/// What is written to the front of a slice stands there, and the rest is as before.
pub proof fn law_overwritten(before: Seq<u8>, symbols: Seq<u8>)
    requires
        symbols.len() <= before.len(),
    ensures
        ({
            let after = slice::overwritten(before, symbols);
            &&& after.len() == before.len()
            &&& forall|i: int| 0 <= i < symbols.len() ==> #[trigger] after[i] == symbols[i]
            &&& forall|i: int|
                symbols.len() <= i < before.len() ==> #[trigger] after[i] == before[i]
        }),
{
}

/// A code is the code of its symbol, and a bit string that is none is the code of no
/// symbol.
pub proof fn law_symbol(sym: u8, pending: Seq<bool>)
    ensures
        code::is_code(code::code(sym)),
        code::symbol_of(code::code(sym)) == sym,
        code::is_code(pending) ==> code::code(code::symbol_of(pending)) == pending,
{
    assert(code::is_code(code::code(sym)));
    code::lemma_code_injective(code::symbol_of(code::code(sym)), sym);
}

/// Bits can be read in two parts: what the second part adds depends only on the bits
/// that the first has left.
pub proof fn law_read_on(a: Seq<bool>, b: Seq<bool>)
    ensures
        ({
            let first = code::read(a);
            let next = code::read_on(
                code::Reading { symbols: Seq::empty(), rest: first.rest },
                b,
            );
            &&& code::read(a + b).symbols == first.symbols + next.symbols
            &&& code::read(a + b).rest == next.rest
        }),
{
    code::lemma_read_further(a, b);
}

/// Padding is ones, no more of them than the limit.
pub proof fn law_padding(rest: Seq<bool>, limit: nat)
    ensures
        code::is_padding(rest, limit) <==> rest == bits::ones(rest.len()) && rest.len() <= limit,
{
    if bits::all_ones(rest) {
        assert(rest =~= bits::ones(rest.len()));
    }
}

/// The look-ahead table has the entry for each of the 1024 windows in its place.
pub proof fn law_peek_table(entries: Seq<(u8, u8)>)
    ensures
        peek::is_peek_table(entries) <==> entries.len() == 1024 && forall|w: nat|
            w < 1024 ==> entries[w as int] == #[trigger] peek::peek_entry(w),
{
}

} // verus!
