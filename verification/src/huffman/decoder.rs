//! Decoding four bits at a time.
use crate::bits;
use crate::buffers;
use crate::error::DecoderError;
use crate::huffman::code;
use crate::huffman::table;
use bytes::BytesMut;
use vstd::arithmetic::power2::*;
use vstd::prelude::*;

verus! {

/// The bits that have been read since the last symbol was complete, as a number
/// and its width.
pub struct Decoder {
    value: u64,
    len: usize,
}

impl Decoder {
    /// The pending bits.
    pub closed spec fn pending(&self) -> Seq<bool> {
        bits::to_bits(self.value as nat, self.len as nat)
    }

    /// No code begins the pending bits, and they are not the end-of-string code.
    pub closed spec fn wf(&self) -> bool {
        &&& self.len < table::MAX_CODE_LEN
        &&& self.value < pow2(self.len as nat)
        &&& table::code_limit(self.len as int) <= self.value
    }

    /// There are fewer pending bits than the longest code has.
    pub proof fn lemma_pending_len(&self)
        requires
            self.wf(),
        ensures
            self.pending().len() < 30,
    {
        bits::lemma_to_bits_len(self.value as nat, self.len as nat);
    }

    /// No bits are pending.
    pub fn new() -> (d: Decoder)
        ensures
            d.wf(),
            d.pending() == Seq::<bool>::empty(),
    {
        proof {
            lemma2_to64();
            table::lemma_limits(1);
        }
        Decoder { value: 0, len: 0 }
    }

    /// Reads one bit. Gives the symbol whose code it completes, or an error if
    /// it completes the end-of-string code.
    pub(crate) fn decode1(&mut self, bit: bool) -> (r: Result<Option<u8>, DecoderError>)
        requires
            old(self).wf(),
        ensures
            ({
                let pending = old(self).pending().push(bit);
                match r {
                    Ok(Some(sym)) => {
                        &&& code::is_code(pending)
                        &&& sym == code::symbol_of(pending)
                        &&& final(self).wf()
                        &&& final(self).pending() == Seq::<bool>::empty()
                    },
                    Ok(None) => {
                        &&& !code::is_code(pending)
                        &&& final(self).wf()
                        &&& final(self).pending() == pending
                    },
                    Err(e) => {
                        &&& !code::is_code(pending)
                        &&& pending.len() == 30
                        &&& e == DecoderError::InvalidHuffmanCode
                    },
                }
            }),
    {
        proof {
            lemma2_to64();
            lemma_pow2_unfold((self.len + 1) as nat);
            if self.len < 29 {
                lemma_pow2_strictly_increases((self.len + 1) as nat, 30);
            }
            table::lemma_limits(1);
            table::lemma_limits(self.len + 1);
            reveal(table::code_limit);
            reveal(table::ranked_symbol);
        }
        let value: u64 = 2 * self.value + (if bit {
            1
        } else {
            0
        });
        let len: usize = self.len + 1;
        proof {
            assert(value as nat / 2 == self.value);
            assert((value as nat % 2 == 1) == bit);
            assert(bits::to_bits(value as nat, len as nat) == self.pending().push(bit));
            bits::lemma_to_bits_len(value as nat, len as nat);
        }
        if value < table::CODE_LIMITS[len] {
            proof {
                table::lemma_symbol_of_code(len as int, value as nat);
                code::lemma_closed_value(value as nat, len as nat);
            }
            let rank: usize = table::CODE_RANKS[len] + (value - 2 * table::CODE_LIMITS[len - 1]) as usize;
            self.value = 0;
            self.len = 0;
            Ok(Some(table::CODE_ORDER[rank]))
        } else {
            proof {
                code::lemma_open_value(value as nat, len as nat);
            }
            if len == table::MAX_CODE_LEN {
                return Err(DecoderError::InvalidHuffmanCode);
            }
            self.value = value;
            self.len = len;
            Ok(None)
        }
    }

    /// Reads four bits, the low ones of `input`. At most one symbol can be
    /// complete within them. The end-of-string code is an error, and nothing is
    /// read then.
    #[verifier::rlimit(40)]
    pub fn decode4(&mut self, input: u8) -> (r: Result<Option<u8>, DecoderError>)
        requires
            old(self).wf(),
            input < 16,
        ensures
            ({
                let before = code::Reading { symbols: Seq::empty(), rest: old(self).pending() };
                let after = code::read_on(before, bits::to_bits(input as nat, 4));
                match r {
                    Ok(sym) => {
                        &&& after.rest.len() < 30
                        &&& after.symbols == (match sym {
                            Some(c) => seq![c],
                            None => Seq::<u8>::empty(),
                        })
                        &&& final(self).wf()
                        &&& final(self).pending() == after.rest
                    },
                    Err(e) => {
                        &&& after.rest.len() >= 30
                        &&& after.symbols == Seq::<u8>::empty()
                        &&& e == DecoderError::InvalidHuffmanCode
                        &&& *final(self) == *old(self)
                    },
                }
            }),
    {
        let ghost before = code::Reading { symbols: Seq::empty(), rest: self.pending() };
        let ghost nibble = bits::to_bits(input as nat, 4);
        let mut next = Decoder { value: self.value, len: self.len };
        let mut sym: Option<u8> = None;
        let mut place: u8 = 8;
        let ghost mut k: int = 0;
        proof {
            bits::lemma_to_bits_len(input as nat, 4);
            reveal_with_fuel(bits::to_bits, 5);
            assert(nibble[0] == ((input / 8) % 2 == 1));
            assert(nibble[1] == ((input / 4) % 2 == 1));
            assert(nibble[2] == ((input / 2) % 2 == 1));
            assert(nibble[3] == (input % 2 == 1));
            assert(nibble.take(0) =~= Seq::empty());
        }
        while place > 0
            invariant
                0 <= k <= 4,
                nibble.len() == 4,
                input < 16,
                nibble[0] == ((input / 8) % 2 == 1),
                nibble[1] == ((input / 4) % 2 == 1),
                nibble[2] == ((input / 2) % 2 == 1),
                nibble[3] == (input % 2 == 1),
                place == (if k == 0 {
                    8int
                } else if k == 1 {
                    4
                } else if k == 2 {
                    2
                } else if k == 3 {
                    1
                } else {
                    0
                }),
                next.wf(),
                before.symbols == Seq::<u8>::empty(),
                code::read_on(before, nibble.take(k)) == (code::Reading {
                    symbols: (match sym {
                        Some(c) => seq![c],
                        None => Seq::<u8>::empty(),
                    }),
                    rest: next.pending(),
                }),
                sym is Some ==> next.pending().len() < k,
                *self == *old(self),
                before.rest == old(self).pending(),
                nibble == bits::to_bits(input as nat, 4),
            decreases place,
        {
            let bit: bool = (input / place) % 2 == 1;
            let ghost so_far = next.pending();
            assert(bit == nibble[k]);
            assert(nibble.take(k + 1) =~= nibble.take(k).push(bit));
            proof {
                code::lemma_read_on_push(before, nibble.take(k), bit);
            }
            match next.decode1(bit) {
                Err(e) => {
                    proof {
                        let at = code::read_on(before, nibble.take(k + 1));
                        code::lemma_read_stuck(at, nibble.skip(k + 1));
                        code::lemma_read_on_concat(before, nibble.take(k + 1), nibble.skip(k + 1));
                        assert(nibble.take(k + 1) + nibble.skip(k + 1) =~= nibble);
                    }
                    return Err(e);
                },
                Ok(Some(c)) => {
                    proof {
                        code::lemma_code_len(code::symbol_of(so_far.push(bit)));
                        assert(sym is None);
                        assert(Seq::<u8>::empty().push(c) =~= seq![c]);
                    }
                    sym = Some(c);
                },
                Ok(None) => {},
            }
            place = place / 2;
            proof {
                k = k + 1;
            }
        }
        assert(nibble.take(4) =~= nibble);
        proof {
            next.lemma_pending_len();
        }
        self.value = next.value;
        self.len = next.len;
        Ok(sym)
    }

    /// The bits may end here: what is pending is padding.
    pub fn is_final(&self) -> (r: bool)
        requires
            self.wf(),
        ensures
            r == code::is_padding(self.pending(), 7),
    {
        proof {
            bits::lemma_to_bits_len(self.value as nat, self.len as nat);
            bits::lemma_all_ones_value(self.value as nat, self.len as nat);
            if self.len <= 7 {
                lemma2_to64();
                vstd::bits::lemma_u64_shl_is_mul(1, self.len as u64);
            }
        }
        self.len <= 7 && self.value == (1u64 << self.len) - 1
    }
}

/// Decodes a whole string and appends it to `buf`, then takes everything out of
/// `buf`. If `src` is refused, `buf` keeps what was decoded of it.
#[verifier::rlimit(40)]
pub fn decode(src: &[u8], buf: &mut BytesMut) -> (r: Result<BytesMut, DecoderError>)
    requires
        buffers::buffer_bytes(*old(buf)).len() + 2 * src@.len() <= isize::MAX,
    ensures
        ({
            let symbols = code::read(bits::bits_of(src@)).symbols;
            let filled = buffers::buffer_bytes(*old(buf)) + symbols;
            match r {
                Ok(taken) => {
                    &&& code::is_accepted(src@)
                    &&& buffers::buffer_bytes(taken) == filled
                    &&& buffers::buffer_bytes(*final(buf)) == Seq::<u8>::empty()
                },
                Err(e) => {
                    &&& !code::is_accepted(src@)
                    &&& e == DecoderError::InvalidHuffmanCode
                    &&& buffers::buffer_bytes(*final(buf)) == filled
                },
            }
        }),
{
    let mut decoder = Decoder::new();
    buffers::reserve(buf, 2 * src.len());

    let ghost mut out: Seq<u8> = Seq::empty();
    let mut i: usize = 0;
    proof {
        assert(src@.take(0) =~= Seq::empty());
        assert(buffers::buffer_bytes(*old(buf)) + out =~= buffers::buffer_bytes(*old(buf)));
    }
    while i < src.len()
        invariant
            i <= src@.len(),
            decoder.wf(),
            code::read(bits::bits_of(src@.take(i as int))) == (code::Reading {
                symbols: out,
                rest: decoder.pending(),
            }),
            buffers::buffer_bytes(*buf) == buffers::buffer_bytes(*old(buf)) + out,
            buffers::buffer_bytes(*old(buf)).len() + 2 * src@.len() <= isize::MAX,
        decreases src@.len() - i,
    {
        let b: u8 = src[i];
        let ghost done = bits::bits_of(src@.take(i as int));
        let ghost hi = bits::to_bits((b / 16) as nat, 4);
        let ghost lo = bits::to_bits((b % 16) as nat, 4);
        proof {
            lemma2_to64();
            bits::lemma_to_bits_split(b as nat, 4, 4);
            assert(src@.take(i + 1) =~= src@.take(i as int).push(b));
            bits::lemma_bits_of_push(src@.take(i as int), b);
            assert(done + (hi + lo) =~= done + hi + lo);
            assert(bits::bits_of(src@.take(i + 1)) == done + hi + lo);
            bits::lemma_bits_of_len(src@.take(i as int));
            bits::lemma_to_bits_len((b / 16) as nat, 4);
            bits::lemma_to_bits_len((b % 16) as nat, 4);
            bits::lemma_bits_of_concat(src@.take(i + 1), src@.skip(i + 1));
            assert(src@.take(i + 1) + src@.skip(i + 1) =~= src@);
            let whole = bits::bits_of(src@);
            assert(whole.take((done + hi).len() as int) =~= done + hi);
            assert(whole.take((done + hi + lo).len() as int) =~= done + hi + lo);
            code::lemma_read_len(done);
            code::lemma_read_len(done + hi);
            code::lemma_read_further(done, hi);
        }
        match decoder.decode4(b / 16) {
            Err(e) => {
                proof {
                    assert(out + Seq::<u8>::empty() =~= out);
                    code::lemma_read_refused(bits::bits_of(src@), done + hi);
                }
                return Err(e);
            },
            Ok(Some(c)) => {
                buffers::put_u8(buf, c);
                proof {
                    assert(out + seq![c] =~= out.push(c));
                    out = out.push(c);
                }
            },
            Ok(None) => {
                assert(out + Seq::<u8>::empty() =~= out);
            },
        }
        proof {
            code::lemma_read_further(done + hi, lo);
        }
        match decoder.decode4(b % 16) {
            Err(e) => {
                proof {
                    assert(out + Seq::<u8>::empty() =~= out);
                    code::lemma_read_refused(bits::bits_of(src@), done + hi + lo);
                }
                return Err(e);
            },
            Ok(Some(c)) => {
                buffers::put_u8(buf, c);
                proof {
                    assert(out + seq![c] =~= out.push(c));
                    out = out.push(c);
                }
            },
            Ok(None) => {
                assert(out + Seq::<u8>::empty() =~= out);
            },
        }
        i = i + 1;
    }
    assert(src@.take(src@.len() as int) =~= src@);
    if !decoder.is_final() {
        return Err(DecoderError::InvalidHuffmanCode);
    }
    Ok(buffers::split(buf))
}

} // verus!
