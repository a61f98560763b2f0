//! Decoding into a slice: whole symbols as far as the look-ahead table goes,
//! four bits at a time from there, and the last bits one by one.
use crate::bits;
use crate::error::DecoderError;
use crate::huffman::code;
use crate::huffman::decoder::Decoder;
use crate::huffman::peek;
use vstd::arithmetic::power2::*;
use vstd::prelude::*;

verus! {

/// How many bits at the start of `stream` are codes that the look-ahead table
/// knows, one after the other.
pub open spec fn short_len(stream: Seq<bool>) -> nat
    decreases stream.len(),
{
    if peek::has_short(stream) {
        let n = code::code(peek::short_symbol(stream)).len();
        if n > 0 {
            n + short_len(stream.skip(n as int))
        } else {
            0
        }
    } else {
        0
    }
}

/// How many bits are left at the end if those after the short codes are read in
/// fours.
pub open spec fn tail_len(stream: Seq<bool>) -> nat {
    ((stream.len() - short_len(stream)) % 4) as nat
}

/// The bytes are the codes of symbols, and padding. Where the padding ends in a
/// tail of less than four bits, the tail does not count for its length.
pub open spec fn is_accepted(src: Seq<u8>) -> bool {
    let stream = bits::bits_of(src);
    code::is_padding(code::read(stream).rest, code::MOST_PADDING as nat + tail_len(stream))
}

/// The string that the bytes are the code of.
pub open spec fn decoded(src: Seq<u8>) -> Option<Seq<u8>> {
    if is_accepted(src) {
        Some(code::read(bits::bits_of(src)).symbols)
    } else {
        None
    }
}

/// Moves bytes of `src`, from `at` on, into the buffered bits `acc` of width `n`,
/// until there are more than `most` of them.
fn refill(src: &[u8], at: usize, acc: u64, n: usize, most: usize) -> (r: (usize, u64, usize))
    requires
        at <= src@.len(),
        acc < pow2(n as nat),
        n <= 64,
        most <= 56,
    ensures
        at <= r.0 <= src@.len(),
        r.1 < pow2(r.2 as nat),
        n <= r.2 <= 64,
        n <= most + 8 ==> r.2 <= most + 8,
        r.2 > most || r.0 == src@.len(),
        bits::to_bits(r.1 as nat, r.2 as nat) + bits::bits_of(src@.skip(r.0 as int))
            == bits::to_bits(acc as nat, n as nat) + bits::bits_of(src@.skip(at as int)),
{
    let mut at: usize = at;
    let mut acc: u64 = acc;
    let mut n: usize = n;
    let ghost unread = bits::to_bits(acc as nat, n as nat) + bits::bits_of(src@.skip(at as int));
    let ghost at0 = at;
    let ghost n0 = n;
    while at < src.len() && n <= most
        invariant
            at0 <= at <= src@.len(),
            acc < pow2(n as nat),
            n0 <= n <= 64,
            most <= 56,
            n0 <= most + 8 ==> n <= most + 8,
            bits::to_bits(acc as nat, n as nat) + bits::bits_of(src@.skip(at as int)) == unread,
        decreases src@.len() - at,
    {
        let b: u8 = src[at];
        proof {
            lemma2_to64();
            lemma2_to64_rest();
            if n < 56 {
                lemma_pow2_strictly_increases(n as nat, 56);
            }
            lemma_pow2_adds(n as nat, 8);
            bits::lemma_to_bits_concat(acc as nat, n as nat, b as nat, 8);
            let one = seq![b];
            assert(src@.skip(at as int) =~= one + src@.skip(at + 1));
            bits::lemma_bits_of_concat(one, src@.skip(at + 1));
            assert(one =~= Seq::<u8>::empty().push(b));
            bits::lemma_bits_of_push(Seq::empty(), b);
            assert(bits::bits_of(one) =~= bits::to_bits(b as nat, 8));
            assert(bits::to_bits(acc as nat, n as nat) + (bits::to_bits(b as nat, 8)
                + bits::bits_of(src@.skip(at + 1))) =~= bits::to_bits(acc as nat, n as nat)
                + bits::to_bits(b as nat, 8) + bits::bits_of(src@.skip(at + 1)));
        }
        acc = acc * 256 + b as u64;
        n = n + 8;
        at = at + 1;
    }
    (at, acc, n)
}

/// The next ten of the buffered bits; zeros stand in for those that are missing.
fn window(acc: u64, n: usize) -> (w: usize)
    requires
        acc < pow2(n as nat),
        n <= 64,
    ensures
        w < peek::PEEK_SIZE,
        n >= 10 ==> bits::begins(
            bits::to_bits(acc as nat, n as nat),
            bits::to_bits(w as nat, 10),
        ),
        n < 10 ==> bits::begins(
            bits::to_bits(w as nat, 10),
            bits::to_bits(acc as nat, n as nat),
        ),
{
    proof {
        lemma2_to64();
        bits::lemma_to_bits_len(acc as nat, n as nat);
    }
    if n >= peek::PEEK_BITS {
        let m: usize = n - peek::PEEK_BITS;
        proof {
            vstd::bits::lemma_u64_shr_is_div(acc, m as u64);
            lemma_pow2_pos(m as nat);
            lemma_pow2_adds(10, m as nat);
            vstd::arithmetic::div_mod::lemma_multiply_divide_lt(
                acc as int,
                pow2(m as nat) as int,
                1024,
            );
            bits::lemma_to_bits_split(acc as nat, 10, m as nat);
            let hi = acc as nat / pow2(m as nat);
            bits::lemma_to_bits_len(hi, 10);
            assert(bits::to_bits(acc as nat, n as nat).take(10) =~= bits::to_bits(hi, 10));
        }
        (acc >> m) as usize
    } else {
        let m: usize = peek::PEEK_BITS - n;
        proof {
            lemma_pow2_pos(m as nat);
            lemma_pow2_adds(n as nat, m as nat);
            let p = pow2(m as nat);
            let q = pow2(n as nat);
            assert(acc * p + p <= q * p) by (nonlinear_arith)
                requires
                    acc < q,
                    0 < p,
            ;
            vstd::bits::lemma_u64_shl_is_mul(acc, m as u64);
            bits::lemma_to_bits_concat(acc as nat, n as nat, 0, m as nat);
            let w = (acc * p) as nat;
            bits::lemma_to_bits_len(w, 10);
            assert(bits::to_bits(w, 10).take(n as int) =~= bits::to_bits(acc as nat, n as nat));
        }
        (acc << m) as usize
    }
}

/// The first `count` of the buffered bits as a number, and the others.
fn take_bits(acc: u64, n: usize, count: usize) -> (r: (u64, u64))
    requires
        acc < pow2(n as nat),
        0 < count <= n <= 64,
    ensures
        r.0 < pow2(count as nat),
        r.1 < pow2((n - count) as nat),
        bits::to_bits(acc as nat, n as nat) == bits::to_bits(r.0 as nat, count as nat)
            + bits::to_bits(r.1 as nat, (n - count) as nat),
{
    let m: usize = n - count;
    proof {
        lemma_pow2_pos(m as nat);
        vstd::bits::lemma_u64_shr_is_div(acc, m as u64);
        vstd::bits::lemma_u64_pow2_no_overflow(m as nat);
        vstd::bits::lemma_u64_shl_is_mul(1, m as u64);
        lemma_pow2_adds(m as nat, count as nat);
        vstd::arithmetic::div_mod::lemma_multiply_divide_lt(
            acc as int,
            pow2(m as nat) as int,
            pow2(count as nat) as int,
        );
        vstd::arithmetic::div_mod::lemma_mod_bound(acc as int, pow2(m as nat) as int);
        bits::lemma_to_bits_split(acc as nat, count as nat, m as nat);
    }
    (acc >> m, acc % (1u64 << m))
}

/// What the look-ahead table says of the buffered bits: a code that it finds,
/// and that is not longer than they are, is what all the unread bits begin with;
/// otherwise these begin with no code that the table knows.
proof fn lemma_peeked(buffered: Seq<bool>, unread: Seq<bool>, w: nat)
    requires
        bits::begins(unread, buffered),
        w < peek::PEEK_SIZE,
        buffered.len() >= 10 ==> bits::begins(buffered, bits::to_bits(w, 10)),
        buffered.len() < 10 ==> bits::begins(bits::to_bits(w, 10), buffered) && unread == buffered,
    ensures
        ({
            let entry = peek::peek_entry(w);
            if 0 < entry.1 <= buffered.len() {
                &&& entry.1 == code::code(entry.0).len()
                &&& bits::begins(buffered, code::code(entry.0))
                &&& peek::has_short(unread)
                &&& peek::short_symbol(unread) == entry.0
            } else {
                !peek::has_short(unread)
            }
        }),
{
    let stream = bits::to_bits(w, 10);
    bits::lemma_to_bits_len(w, 10);
    let entry = peek::peek_entry(w);
    if peek::has_short(unread) {
        let sym = peek::short_symbol(unread);
        let n = code::code(sym).len() as int;
        if buffered.len() >= 10 {
            assert(stream.take(n) =~= buffered.take(n));
            assert(buffered.take(n) =~= unread.take(n));
        } else {
            assert(stream.take(n) =~= buffered.take(n));
        }
        assert(peek::begins_short(stream, sym));
        peek::lemma_begins_unique(stream, sym, peek::short_symbol(stream));
        code::lemma_code_len(sym);
        assert(buffered.take(n) =~= unread.take(n));
    }
    if 0 < entry.1 <= buffered.len() {
        let sym = entry.0;
        code::lemma_code_len(sym);
        let n = code::code(sym).len() as int;
        if buffered.len() >= 10 {
            assert(buffered.take(n) =~= stream.take(n));
        } else {
            assert(buffered.take(n) =~= stream.take(n));
        }
        assert(unread.take(n) =~= buffered.take(n));
        assert(peek::begins_short(unread, sym));
        peek::lemma_begins_unique(unread, sym, peek::short_symbol(unread));
    }
}

/// The slice starts with `symbols` and goes on as before.
pub open spec fn overwritten(before: Seq<u8>, symbols: Seq<u8>) -> Seq<u8> {
    symbols + before.skip(symbols.len() as int)
}

proof fn lemma_overwrite(before: Seq<u8>, symbols: Seq<u8>, c: u8)
    requires
        symbols.len() < before.len(),
    ensures
        overwritten(before, symbols).len() == before.len(),
        overwritten(before, symbols).update(symbols.len() as int, c) == overwritten(
            before,
            symbols.push(c),
        ),
{
    assert(overwritten(before, symbols).update(symbols.len() as int, c) =~= overwritten(
        before,
        symbols.push(c),
    ));
}

/// Decodes `src` into the front of `dst` and returns how many bytes were
/// written. `dst` must be at least twice as long as `src`.
pub fn decode_to_slice(src: &[u8], dst: &mut [u8]) -> (r: Result<usize, DecoderError>)
    requires
        2 * src@.len() <= old(dst)@.len(),
    ensures
        ({
            let symbols = code::read(bits::bits_of(src@)).symbols;
            &&& final(dst)@ == overwritten(old(dst)@, symbols)
            &&& match r {
                Ok(n) => is_accepted(src@) && n == symbols.len(),
                Err(e) => !is_accepted(src@) && e == DecoderError::InvalidHuffmanCode,
            }
        }),
{
    let entries = peek::build_peek_table();
    decode_with_table(&entries, src, dst)
}

/// Decodes the codes that the look-ahead table knows, up to the first that it
/// does not know. Returns where `src` is to be read on, the buffered bits and
/// their number, and how many bytes were written to `dst`.
#[verifier::rlimit(40)]
fn decode_short(entries: &[(u8, u8); 1024], src: &[u8], dst: &mut [u8]) -> (r: (
    usize,
    u64,
    usize,
    usize,
))
    requires
        peek::is_peek_table(entries@),
        2 * src@.len() <= old(dst)@.len(),
    ensures
        ({
            let stream = bits::bits_of(src@);
            let k = short_len(stream) as int;
            let got = code::read(stream.take(k));
            &&& k <= stream.len()
            &&& got.rest == Seq::<bool>::empty()
            &&& r.0 <= src@.len()
            &&& r.1 < pow2(r.2 as nat)
            &&& r.2 <= 64
            &&& bits::to_bits(r.1 as nat, r.2 as nat) + bits::bits_of(src@.skip(r.0 as int))
                == stream.skip(k)
            &&& r.3 == got.symbols.len()
            &&& final(dst)@ == overwritten(old(dst)@, got.symbols)
        }),
{
    let ghost stream = bits::bits_of(src@);
    let ghost mut k: int = 0;
    let ghost mut out: Seq<u8> = Seq::empty();
    let mut written: usize = 0;
    proof {
        lemma2_to64();
        bits::lemma_bits_of_len(src@);
        assert(src@.skip(0) =~= src@);
        assert(stream.skip(0) =~= stream);
        assert(stream.take(0) =~= Seq::empty());
        assert(bits::to_bits(0, 0) + bits::bits_of(src@.skip(0)) =~= stream);
        assert(overwritten(dst@, out) =~= dst@);
    }
    let (mut at, mut acc, mut n) = refill(src, 0, 0, 0, 56);
    proof {
        if n == 0 {
            assert(src@.skip(at as int) =~= Seq::empty());
            assert(stream.skip(k) =~= Seq::empty());
            lemma_nothing_short(stream.skip(k));
        }
    }
    while n > 0
        invariant_except_break
            n >= 10 || at == src@.len(),
            n == 0 ==> !peek::has_short(stream.skip(k)),
        invariant
            peek::is_peek_table(entries@),
            stream == bits::bits_of(src@),
            stream.len() == 8 * src@.len(),
            2 * src@.len() <= old(dst)@.len(),
            0 <= k <= stream.len(),
            at <= src@.len(),
            acc < pow2(n as nat),
            n <= 64,
            bits::to_bits(acc as nat, n as nat) + bits::bits_of(src@.skip(at as int))
                == stream.skip(k),
            code::read(stream.take(k)) == (code::Reading {
                symbols: out,
                rest: Seq::<bool>::empty(),
            }),
            short_len(stream) == k + short_len(stream.skip(k)),
            written == out.len(),
            dst@ == overwritten(old(dst)@, out),
        ensures
            !peek::has_short(stream.skip(k)),
        decreases stream.len() - k,
    {
        let w: usize = window(acc, n);
        let (sym, consumed) = entries[w];
        let ghost buffered = bits::to_bits(acc as nat, n as nat);
        let ghost unread = stream.skip(k);
        proof {
            bits::lemma_to_bits_len(acc as nat, n as nat);
            assert(unread.take(n as int) =~= buffered);
            if n < 10 {
                assert(src@.skip(at as int) =~= Seq::empty());
                assert(unread =~= buffered);
            }
            assert(entries@[w as int] == peek::peek_entry(w as nat));
            lemma_peeked(buffered, unread, w as nat);
        }
        if consumed == 0 || consumed as usize > n {
            break;
        }
        let ghost done = stream.take(k);
        let ghost c = consumed as int;
        proof {
            code::lemma_code_len(sym);
            assert(stream.take(k + c) =~= done + code::code(sym)) by {
                assert(stream.take(k + c) =~= done + unread.take(c));
                assert(unread.take(c) =~= buffered.take(c));
            }
            code::lemma_read_on_concat(code::start(), done, code::code(sym));
            code::lemma_read_code(code::read(done), sym);
            code::lemma_read_len(stream.take(k + c));
            lemma_overwrite(old(dst)@, out, sym);
            assert(unread.skip(c) =~= stream.skip(k + c));
        }
        dst[written] = sym;
        written = written + 1;
        let (_, rest) = take_bits(acc, n, consumed as usize);
        proof {
            bits::lemma_to_bits_len(rest as nat, (n - c) as nat);
            let top = bits::to_bits(rest as nat, (n - c) as nat);
            assert(top + bits::bits_of(src@.skip(at as int)) =~= stream.skip(k + c)) by {
                bits::lemma_to_bits_len((acc as nat / pow2((n - c) as nat)), c as nat);
                assert(buffered.skip(c) =~= top);
                assert(unread.skip(c) =~= buffered.skip(c) + bits::bits_of(
                    src@.skip(at as int),
                ));
            }
            out = out.push(sym);
            k = k + c;
        }
        acc = rest;
        n = n - consumed as usize;
        if n < peek::PEEK_BITS {
            let (next_at, next_acc, next_n) = refill(src, at, acc, n, 56);
            at = next_at;
            acc = next_acc;
            n = next_n;
        }
        proof {
            if n == 0 {
                assert(src@.skip(at as int) =~= Seq::empty());
                assert(stream.skip(k) =~= Seq::empty());
                lemma_nothing_short(stream.skip(k));
            }
        }
    }
    (at, acc, n, written)
}

proof fn lemma_nothing_short(stream: Seq<bool>)
    requires
        stream.len() == 0,
    ensures
        !peek::has_short(stream),
{
    if peek::has_short(stream) {
        code::lemma_code_len(peek::short_symbol(stream));
    }
}

/// Padding that is too long but for a tail begins before the tail.
proof fn lemma_long_padding(done: code::Reading, tail: Seq<bool>)
    requires
        tail.len() < 4,
        !(code::is_padding(done.rest, 7) && bits::all_ones(tail)),
    ensures
        ({
            let rest = code::read_on(done, tail).rest;
            code::is_padding(rest, 7 + tail.len()) == code::is_padding(rest, 7)
        }),
{
    let rest = code::read_on(done, tail).rest;
    if code::is_padding(rest, 7 + tail.len()) && !code::is_padding(rest, 7) {
        code::lemma_read_kept(done, tail);
        assert forall|i: int| 0 <= i < done.rest.len() implies done.rest[i] by {
            assert(rest[i]);
        }
        assert forall|i: int| 0 <= i < tail.len() implies tail[i] by {
            assert(rest[done.rest.len() + i]);
        }
    }
}

/// Decodes the last bits, `n` of them. If they are ones and what was decoded so far
/// may end here, they are passed over as padding; otherwise they are decoded one by
/// one. The bits of `stream` up to `k` have been decoded.
#[verifier::rlimit(40)]
fn decode_tail(
    decoder: Decoder,
    acc: u64,
    n: usize,
    dst: &mut [u8],
    written: usize,
    Ghost(stream): Ghost<Seq<bool>>,
    Ghost(k): Ghost<int>,
    Ghost(before): Ghost<Seq<u8>>,
) -> (r: Result<usize, DecoderError>)
    requires
        decoder.wf(),
        n < 4,
        acc < pow2(n as nat),
        0 <= k <= stream.len(),
        bits::to_bits(acc as nat, n as nat) == stream.skip(k),
        code::read(stream.take(k)).rest == decoder.pending(),
        written == code::read(stream.take(k)).symbols.len(),
        old(dst)@ == overwritten(before, code::read(stream.take(k)).symbols),
        stream.len() <= 5 * before.len(),
    ensures
        ({
            let end = code::read(stream);
            let accepted = code::is_padding(end.rest, (code::MOST_PADDING + n) as nat);
            &&& final(dst)@ == overwritten(before, end.symbols)
            &&& match r {
                Ok(len) => accepted && len == end.symbols.len(),
                Err(e) => !accepted && e == DecoderError::InvalidHuffmanCode,
            }
        }),
{
    let ghost tail = stream.skip(k);
    let ghost done = code::read(stream.take(k));
    proof {
        lemma2_to64();
        bits::lemma_to_bits_len(acc as nat, n as nat);
        bits::lemma_all_ones_value(acc as nat, n as nat);
        vstd::bits::lemma_u64_shl_is_mul(1, n as u64);
        assert(stream.take(k) + tail =~= stream);
        code::lemma_read_on_concat(code::start(), stream.take(k), tail);
    }
    let all_ones: bool = acc == (1u64 << n) - 1;
    if all_ones && decoder.is_final() {
        proof {
            assert(tail =~= bits::ones(n as nat));
            code::lemma_read_ones(done, n as nat);
        }
        return Ok(written);
    }
    proof {
        lemma_long_padding(done, tail);
    }
    let mut decoder = decoder;
    let mut acc: u64 = acc;
    let mut left: usize = n;
    let mut written: usize = written;
    let ghost mut k: int = k;
    let ghost mut out: Seq<u8> = done.symbols;
    while left > 0
        invariant
            decoder.wf(),
            left <= n < 4,
            acc < pow2(left as nat),
            0 <= k <= stream.len(),
            bits::to_bits(acc as nat, left as nat) == stream.skip(k),
            code::read(stream.take(k)) == (code::Reading {
                symbols: out,
                rest: decoder.pending(),
            }),
            written == out.len(),
            dst@ == overwritten(before, out),
            stream.len() <= 5 * before.len(),
        decreases left,
    {
        let (bit, rest) = take_bits(acc, left, 1);
        let ghost done = stream.take(k);
        proof {
            lemma2_to64();
            bits::lemma_to_bits_len(acc as nat, left as nat);
            bits::lemma_to_bits_len(rest as nat, (left - 1) as nat);
            let first = bits::to_bits(bit as nat, 1);
            bits::lemma_to_bits_len(bit as nat, 1);
            assert(first[0] == (bit == 1)) by {
                assert(bits::to_bits(bit as nat, 1) == bits::to_bits(bit as nat / 2, 0).push(
                    bit as nat % 2 == 1,
                ));
            }
            assert(stream[k] == stream.skip(k)[0]);
            assert(stream.take(k + 1) =~= done.push(bit == 1));
            assert(stream.skip(k + 1) =~= stream.skip(k).skip(1));
            assert((first + bits::to_bits(rest as nat, (left - 1) as nat)).skip(1) =~= bits::to_bits(
                rest as nat,
                (left - 1) as nat,
            ));
            code::lemma_read_on_push(code::start(), done, bit == 1);
            code::lemma_read_len(stream.take(k + 1));
        }
        acc = rest;
        left = left - 1;
        match decoder.decode1(bit == 1) {
            Err(e) => {
                proof {
                    code::lemma_read_refused(stream, stream.take(k + 1));
                }
                return Err(e);
            },
            Ok(Some(c)) => {
                proof {
                    lemma_overwrite(before, out, c);
                    out = out.push(c);
                }
                dst[written] = c;
                written = written + 1;
            },
            Ok(None) => {},
        }
        proof {
            k = k + 1;
        }
    }
    proof {
        bits::lemma_to_bits_len(acc as nat, left as nat);
        assert(stream.skip(k).len() == 0);
        assert(stream.take(k) =~= stream);
    }
    if !decoder.is_final() {
        return Err(DecoderError::InvalidHuffmanCode);
    }
    Ok(written)
}

/// `decode_to_slice` with a table that is at hand.
#[verifier::rlimit(40)]
pub fn decode_with_table(entries: &[(u8, u8); 1024], src: &[u8], dst: &mut [u8]) -> (r: Result<
    usize,
    DecoderError,
>)
    requires
        peek::is_peek_table(entries@),
        2 * src@.len() <= old(dst)@.len(),
    ensures
        ({
            let symbols = code::read(bits::bits_of(src@)).symbols;
            &&& final(dst)@ == overwritten(old(dst)@, symbols)
            &&& match r {
                Ok(n) => is_accepted(src@) && n == symbols.len(),
                Err(e) => !is_accepted(src@) && e == DecoderError::InvalidHuffmanCode,
            }
        }),
{
    let ghost stream = bits::bits_of(src@);
    let (mut at, mut acc, mut n, mut written) = decode_short(entries, src, dst);
    let ghost mut k: int = short_len(stream) as int;
    let ghost mut out: Seq<u8> = code::read(stream.take(k)).symbols;
    let mut decoder = Decoder::new();
    proof {
        bits::lemma_bits_of_len(src@);
    }
    loop
        invariant
            stream == bits::bits_of(src@),
            stream.len() == 8 * src@.len(),
            2 * src@.len() <= old(dst)@.len(),
            0 <= k <= stream.len(),
            (stream.len() - k) % 4 == tail_len(stream),
            at <= src@.len(),
            acc < pow2(n as nat),
            n <= 64,
            bits::to_bits(acc as nat, n as nat) + bits::bits_of(src@.skip(at as int))
                == stream.skip(k),
            decoder.wf(),
            code::read(stream.take(k)) == (code::Reading {
                symbols: out,
                rest: decoder.pending(),
            }),
            written == out.len(),
            dst@ == overwritten(old(dst)@, out),
        ensures
            n < 4,
            at == src@.len(),
        decreases stream.len() - k,
    {
        let (next_at, next_acc, next_n) = refill(src, at, acc, n, 3);
        at = next_at;
        acc = next_acc;
        n = next_n;
        if n < 4 {
            break;
        }
        let (nibble, rest) = take_bits(acc, n, 4);
        let ghost four = bits::to_bits(nibble as nat, 4);
        let ghost done = stream.take(k);
        proof {
            lemma2_to64();
            bits::lemma_to_bits_len(nibble as nat, 4);
            bits::lemma_to_bits_len(rest as nat, (n - 4) as nat);
            let top = bits::to_bits(rest as nat, (n - 4) as nat);
            let beyond = bits::bits_of(src@.skip(at as int));
            assert(stream.skip(k) == four + top + beyond);
            assert(stream.skip(k).skip(4) =~= top + beyond);
            assert(stream.skip(k).skip(4) =~= stream.skip(k + 4));
            assert(stream.skip(k).take(4) =~= four);
            assert(stream.take(k + 4) =~= done + stream.skip(k).take(4));
            assert(stream.take(k + 4) =~= done + four);
            code::lemma_read_further(done, four);
            code::lemma_read_len(done + four);
        }
        acc = rest;
        n = n - 4;
        match decoder.decode4(nibble as u8) {
            Err(e) => {
                proof {
                    assert(out + Seq::<u8>::empty() =~= out);
                    code::lemma_read_refused(stream, done + four);
                }
                return Err(e);
            },
            Ok(Some(c)) => {
                proof {
                    assert(out + seq![c] =~= out.push(c));
                    lemma_overwrite(old(dst)@, out, c);
                    out = out.push(c);
                }
                dst[written] = c;
                written = written + 1;
            },
            Ok(None) => {
                assert(out + Seq::<u8>::empty() =~= out);
            },
        }
        proof {
            k = k + 4;
        }
    }
    proof {
        assert(src@.skip(at as int) =~= Seq::empty());
        assert(bits::to_bits(acc as nat, n as nat) =~= stream.skip(k));
        bits::lemma_to_bits_len(acc as nat, n as nat);
        assert(n == tail_len(stream));
    }
    decode_tail(
        decoder,
        acc,
        n,
        dst,
        written,
        Ghost(stream),
        Ghost(k),
        Ghost(old(dst)@),
    )
}

} // verus!
