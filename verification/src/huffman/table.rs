//! The Huffman code of HPACK.
//!
//! The code is canonical: among codes of one length the symbols come in
//! ascending order, and a code of the next length begins where the codes of
//! this one end. Decoding rests on that order.
use vstd::prelude::*;

verus! {

/// For each symbol, the length of its code in bits and the code itself,
/// right-aligned.
pub const ENCODE_TABLE: [(usize, u64); 256] = [
    (13, 0x1ff8),
    (23, 0x007f_ffd8),
    (28, 0x0fff_ffe2),
    (28, 0x0fff_ffe3),
    (28, 0x0fff_ffe4),
    (28, 0x0fff_ffe5),
    (28, 0x0fff_ffe6),
    (28, 0x0fff_ffe7),
    (28, 0x0fff_ffe8),
    (24, 0x00ff_ffea),
    (30, 0x3fff_fffc),
    (28, 0x0fff_ffe9),
    (28, 0x0fff_ffea),
    (30, 0x3fff_fffd),
    (28, 0x0fff_ffeb),
    (28, 0x0fff_ffec),
    (28, 0x0fff_ffed),
    (28, 0x0fff_ffee),
    (28, 0x0fff_ffef),
    (28, 0x0fff_fff0),
    (28, 0x0fff_fff1),
    (28, 0x0fff_fff2),
    (30, 0x3fff_fffe),
    (28, 0x0fff_fff3),
    (28, 0x0fff_fff4),
    (28, 0x0fff_fff5),
    (28, 0x0fff_fff6),
    (28, 0x0fff_fff7),
    (28, 0x0fff_fff8),
    (28, 0x0fff_fff9),
    (28, 0x0fff_fffa),
    (28, 0x0fff_fffb),
    (6, 0x14),
    (10, 0x3f8),  // '!'
    (10, 0x3f9),  // '"'
    (12, 0xffa),  // '#'
    (13, 0x1ff9),  // '$'
    (6, 0x15),  // '%'
    (8, 0xf8),  // '&'
    (11, 0x7fa),  // '''
    (10, 0x3fa),  // '('
    (10, 0x3fb),  // ')'
    (8, 0xf9),  // '*'
    (11, 0x7fb),  // '+'
    (8, 0xfa),  // ','
    (6, 0x16),  // '-'
    (6, 0x17),  // '.'
    (6, 0x18),  // '/'
    (5, 0x0),  // '0'
    (5, 0x1),  // '1'
    (5, 0x2),  // '2'
    (6, 0x19),  // '3'
    (6, 0x1a),  // '4'
    (6, 0x1b),  // '5'
    (6, 0x1c),  // '6'
    (6, 0x1d),  // '7'
    (6, 0x1e),  // '8'
    (6, 0x1f),  // '9'
    (7, 0x5c),  // ':'
    (8, 0xfb),  // ';'
    (15, 0x7ffc),  // '<'
    (6, 0x20),  // '='
    (12, 0xffb),  // '>'
    (10, 0x3fc),  // '?'
    (13, 0x1ffa),  // '@'
    (6, 0x21),  // 'A'
    (7, 0x5d),  // 'B'
    (7, 0x5e),  // 'C'
    (7, 0x5f),  // 'D'
    (7, 0x60),  // 'E'
    (7, 0x61),  // 'F'
    (7, 0x62),  // 'G'
    (7, 0x63),  // 'H'
    (7, 0x64),  // 'I'
    (7, 0x65),  // 'J'
    (7, 0x66),  // 'K'
    (7, 0x67),  // 'L'
    (7, 0x68),  // 'M'
    (7, 0x69),  // 'N'
    (7, 0x6a),  // 'O'
    (7, 0x6b),  // 'P'
    (7, 0x6c),  // 'Q'
    (7, 0x6d),  // 'R'
    (7, 0x6e),  // 'S'
    (7, 0x6f),  // 'T'
    (7, 0x70),  // 'U'
    (7, 0x71),  // 'V'
    (7, 0x72),  // 'W'
    (8, 0xfc),  // 'X'
    (7, 0x73),  // 'Y'
    (8, 0xfd),  // 'Z'
    (13, 0x1ffb),  // '['
    (19, 0x0007_fff0),  // '\'
    (13, 0x1ffc),  // ']'
    (14, 0x3ffc),  // '^'
    (6, 0x22),  // '_'
    (15, 0x7ffd),  // '`'
    (5, 0x3),  // 'a'
    (6, 0x23),  // 'b'
    (5, 0x4),  // 'c'
    (6, 0x24),  // 'd'
    (5, 0x5),  // 'e'
    (6, 0x25),  // 'f'
    (6, 0x26),  // 'g'
    (6, 0x27),  // 'h'
    (5, 0x6),  // 'i'
    (7, 0x74),  // 'j'
    (7, 0x75),  // 'k'
    (6, 0x28),  // 'l'
    (6, 0x29),  // 'm'
    (6, 0x2a),  // 'n'
    (5, 0x7),  // 'o'
    (6, 0x2b),  // 'p'
    (7, 0x76),  // 'q'
    (6, 0x2c),  // 'r'
    (5, 0x8),  // 's'
    (5, 0x9),  // 't'
    (6, 0x2d),  // 'u'
    (7, 0x77),  // 'v'
    (7, 0x78),  // 'w'
    (7, 0x79),  // 'x'
    (7, 0x7a),  // 'y'
    (7, 0x7b),  // 'z'
    (15, 0x7ffe),  // '{'
    (11, 0x7fc),  // '|'
    (14, 0x3ffd),  // '}'
    (13, 0x1ffd),  // '~'
    (28, 0x0fff_fffc),
    (20, 0x000f_ffe6),
    (22, 0x003f_ffd2),
    (20, 0x000f_ffe7),
    (20, 0x000f_ffe8),
    (22, 0x003f_ffd3),
    (22, 0x003f_ffd4),
    (22, 0x003f_ffd5),
    (23, 0x007f_ffd9),
    (22, 0x003f_ffd6),
    (23, 0x007f_ffda),
    (23, 0x007f_ffdb),
    (23, 0x007f_ffdc),
    (23, 0x007f_ffdd),
    (23, 0x007f_ffde),
    (24, 0x00ff_ffeb),
    (23, 0x007f_ffdf),
    (24, 0x00ff_ffec),
    (24, 0x00ff_ffed),
    (22, 0x003f_ffd7),
    (23, 0x007f_ffe0),
    (24, 0x00ff_ffee),
    (23, 0x007f_ffe1),
    (23, 0x007f_ffe2),
    (23, 0x007f_ffe3),
    (23, 0x007f_ffe4),
    (21, 0x001f_ffdc),
    (22, 0x003f_ffd8),
    (23, 0x007f_ffe5),
    (22, 0x003f_ffd9),
    (23, 0x007f_ffe6),
    (23, 0x007f_ffe7),
    (24, 0x00ff_ffef),
    (22, 0x003f_ffda),
    (21, 0x001f_ffdd),
    (20, 0x000f_ffe9),
    (22, 0x003f_ffdb),
    (22, 0x003f_ffdc),
    (23, 0x007f_ffe8),
    (23, 0x007f_ffe9),
    (21, 0x001f_ffde),
    (23, 0x007f_ffea),
    (22, 0x003f_ffdd),
    (22, 0x003f_ffde),
    (24, 0x00ff_fff0),
    (21, 0x001f_ffdf),
    (22, 0x003f_ffdf),
    (23, 0x007f_ffeb),
    (23, 0x007f_ffec),
    (21, 0x001f_ffe0),
    (21, 0x001f_ffe1),
    (22, 0x003f_ffe0),
    (21, 0x001f_ffe2),
    (23, 0x007f_ffed),
    (22, 0x003f_ffe1),
    (23, 0x007f_ffee),
    (23, 0x007f_ffef),
    (20, 0x000f_ffea),
    (22, 0x003f_ffe2),
    (22, 0x003f_ffe3),
    (22, 0x003f_ffe4),
    (23, 0x007f_fff0),
    (22, 0x003f_ffe5),
    (22, 0x003f_ffe6),
    (23, 0x007f_fff1),
    (26, 0x03ff_ffe0),
    (26, 0x03ff_ffe1),
    (20, 0x000f_ffeb),
    (19, 0x0007_fff1),
    (22, 0x003f_ffe7),
    (23, 0x007f_fff2),
    (22, 0x003f_ffe8),
    (25, 0x01ff_ffec),
    (26, 0x03ff_ffe2),
    (26, 0x03ff_ffe3),
    (26, 0x03ff_ffe4),
    (27, 0x07ff_ffde),
    (27, 0x07ff_ffdf),
    (26, 0x03ff_ffe5),
    (24, 0x00ff_fff1),
    (25, 0x01ff_ffed),
    (19, 0x0007_fff2),
    (21, 0x001f_ffe3),
    (26, 0x03ff_ffe6),
    (27, 0x07ff_ffe0),
    (27, 0x07ff_ffe1),
    (26, 0x03ff_ffe7),
    (27, 0x07ff_ffe2),
    (24, 0x00ff_fff2),
    (21, 0x001f_ffe4),
    (21, 0x001f_ffe5),
    (26, 0x03ff_ffe8),
    (26, 0x03ff_ffe9),
    (28, 0x0fff_fffd),
    (27, 0x07ff_ffe3),
    (27, 0x07ff_ffe4),
    (27, 0x07ff_ffe5),
    (20, 0x000f_ffec),
    (24, 0x00ff_fff3),
    (20, 0x000f_ffed),
    (21, 0x001f_ffe6),
    (22, 0x003f_ffe9),
    (21, 0x001f_ffe7),
    (21, 0x001f_ffe8),
    (23, 0x007f_fff3),
    (22, 0x003f_ffea),
    (22, 0x003f_ffeb),
    (25, 0x01ff_ffee),
    (25, 0x01ff_ffef),
    (24, 0x00ff_fff4),
    (24, 0x00ff_fff5),
    (26, 0x03ff_ffea),
    (23, 0x007f_fff4),
    (26, 0x03ff_ffeb),
    (27, 0x07ff_ffe6),
    (26, 0x03ff_ffec),
    (26, 0x03ff_ffed),
    (27, 0x07ff_ffe7),
    (27, 0x07ff_ffe8),
    (27, 0x07ff_ffe9),
    (27, 0x07ff_ffea),
    (27, 0x07ff_ffeb),
    (28, 0x0fff_fffe),
    (27, 0x07ff_ffec),
    (27, 0x07ff_ffed),
    (27, 0x07ff_ffee),
    (27, 0x07ff_ffef),
    (27, 0x07ff_fff0),
    (26, 0x03ff_ffee),
];

/// The symbols in the order of their codes: by length, then by value.
pub const CODE_ORDER: [u8; 256] = [
    48, 49, 50, 97, 99, 101, 105, 111, 115, 116, 32, 37, 45, 46, 47, 51,
    52, 53, 54, 55, 56, 57, 61, 65, 95, 98, 100, 102, 103, 104, 108, 109,
    110, 112, 114, 117, 58, 66, 67, 68, 69, 70, 71, 72, 73, 74, 75, 76,
    77, 78, 79, 80, 81, 82, 83, 84, 85, 86, 87, 89, 106, 107, 113, 118,
    119, 120, 121, 122, 38, 42, 44, 59, 88, 90, 33, 34, 40, 41, 63, 39,
    43, 124, 35, 62, 0, 36, 64, 91, 93, 126, 94, 125, 60, 96, 123, 92,
    195, 208, 128, 130, 131, 162, 184, 194, 224, 226, 153, 161, 167, 172, 176, 177,
    179, 209, 216, 217, 227, 229, 230, 129, 132, 133, 134, 136, 146, 154, 156, 160,
    163, 164, 169, 170, 173, 178, 181, 185, 186, 187, 189, 190, 196, 198, 228, 232,
    233, 1, 135, 137, 138, 139, 140, 141, 143, 147, 149, 150, 151, 152, 155, 157,
    158, 165, 166, 168, 174, 175, 180, 182, 183, 188, 191, 197, 231, 239, 9, 142,
    144, 145, 148, 159, 171, 206, 215, 225, 236, 237, 199, 207, 234, 235, 192, 193,
    200, 201, 202, 205, 210, 213, 218, 219, 238, 240, 242, 243, 255, 203, 204, 211,
    212, 214, 221, 222, 223, 241, 244, 245, 246, 247, 248, 250, 251, 252, 253, 254,
    2, 3, 4, 5, 6, 7, 8, 11, 12, 14, 15, 16, 17, 18, 19, 20,
    21, 23, 24, 25, 26, 27, 28, 29, 30, 31, 127, 220, 249, 10, 13, 22,
];

/// For each length, the first value of that length that no code of that or a
/// lower length begins.
pub const CODE_LIMITS: [u64; 31] = [
    0x0, 0x0, 0x0, 0x0, 0x0, 0xa, 0x2e, 0x7c,
    0xfe, 0x1fc, 0x3fd, 0x7fd, 0xffc, 0x1ffe, 0x3ffe, 0x7fff,
    0xfffe, 0x1fffc, 0x3fff8, 0x7fff3, 0xfffee, 0x1fffe9, 0x3fffec, 0x7ffff5,
    0xfffff6, 0x1fffff0, 0x3ffffef, 0x7fffff1, 0xfffffff, 0x1ffffffe, 0x3fffffff,
];

/// For each length, how many codes are shorter.
pub const CODE_RANKS: [usize; 32] = [
    0, 0, 0, 0, 0, 0, 10, 36, 68, 74, 74, 79, 82, 84, 90, 92,
    95, 95, 95, 95, 98, 106, 119, 145, 174, 186, 190, 205, 224, 253, 253, 256,
];

/// The length of the longest code, which is also that of the end-of-string
/// code: thirty one-bits.
pub const MAX_CODE_LEN: usize = 30;

/// How many bits the code of `sym` has.
#[verifier::opaque]
pub open spec fn code_len(sym: u8) -> nat {
    ENCODE_TABLE@[sym as int].0 as nat
}

/// The code of `sym` as a number.
#[verifier::opaque]
pub open spec fn code_value(sym: u8) -> nat {
    ENCODE_TABLE@[sym as int].1 as nat
}

/// The first value of `len` bits that no code of `len` or fewer bits begins.
#[verifier::opaque]
pub open spec fn code_limit(len: int) -> nat {
    CODE_LIMITS@[len] as nat
}

/// How many codes are shorter than `len` bits.
#[verifier::opaque]
pub open spec fn code_rank(len: int) -> nat {
    CODE_RANKS@[len] as nat
}

/// The symbol with the code of `len` bits whose number is `value`.
#[verifier::opaque]
pub open spec fn ranked_symbol(len: int, value: nat) -> u8 {
    CODE_ORDER@[CODE_RANKS@[len] + value - 2 * CODE_LIMITS@[len - 1]]
}

pub proof fn lemma_code_of_symbol(sym: u8)
    ensures
        5 <= code_len(sym) <= MAX_CODE_LEN,
        2 * code_limit(code_len(sym) - 1) <= code_value(sym) < code_limit(code_len(sym) as int),
        ranked_symbol(code_len(sym) as int, code_value(sym)) == sym,
{
    reveal(code_len);
    reveal(code_value);
    reveal(code_limit);
    reveal(ranked_symbol);
}

proof fn lemma_order_position(k: int)
    requires
        0 <= k < 256,
    ensures
        ({
            let sym = CODE_ORDER@[k];
            let len = code_len(sym) as int;
            &&& 5 <= len <= MAX_CODE_LEN
            &&& code_rank(len) <= k < code_rank(len + 1)
            &&& k == code_rank(len) + code_value(sym) - 2 * code_limit(len - 1)
        }),
{
    reveal(code_len);
    reveal(code_value);
    reveal(code_limit);
    reveal(code_rank);
}

proof fn lemma_ranks_ascend(a: int, b: int)
    requires
        0 <= a <= b <= 31,
    ensures
        code_rank(a) <= code_rank(b) <= 256,
    decreases b - a,
{
    reveal(code_rank);
    if a < b {
        lemma_ranks_ascend(a, b - 1);
    }
}

pub proof fn lemma_limits(len: int)
    requires
        0 < len <= MAX_CODE_LEN,
    ensures
        2 * code_limit(len - 1) <= code_limit(len),
        code_limit(len) - 2 * code_limit(len - 1) == code_rank(len + 1) - code_rank(len),
        len < 5 ==> code_limit(len) == 0,
        code_limit(0) == 0,
        code_limit(30) == 0x3fff_ffff,
{
    reveal(code_limit);
    reveal(code_rank);
}

pub proof fn lemma_symbol_of_code(len: int, value: nat)
    requires
        0 < len <= MAX_CODE_LEN,
        2 * code_limit(len - 1) <= value < code_limit(len),
    ensures
        0 <= CODE_RANKS@[len] + value - 2 * CODE_LIMITS@[len - 1] < 256,
        code_len(ranked_symbol(len, value)) == len,
        code_value(ranked_symbol(len, value)) == value,
{
    lemma_limits(len);
    lemma_ranks_ascend(len, len + 1);
    lemma_ranks_ascend(len + 1, 31);
    let k = code_rank(len) + value - 2 * code_limit(len - 1);
    assert(k == CODE_RANKS@[len] + value - 2 * CODE_LIMITS@[len - 1]) by {
        reveal(code_rank);
        reveal(code_limit);
    }
    lemma_order_position(k);
    let sym = CODE_ORDER@[k];
    assert(ranked_symbol(len, value) == sym) by {
        reveal(ranked_symbol);
    }
    let l = code_len(sym) as int;
    if l < len {
        lemma_ranks_ascend(l + 1, len);
    } else if l > len {
        lemma_ranks_ascend(len + 1, l);
    }
}

} // verus!
