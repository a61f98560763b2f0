//! The static table of HPACK.
use crate::http_types;
use http::header::HeaderName;
use vstd::prelude::*;

verus! {

/// The names and values of the static table. Its entries are counted from one;
/// the entry at zero is not used.
pub const STATIC_TABLE: [(&'static str, &'static str); 62] = [
    ("", ""),  // 0
    (":authority", ""),  // 1
    (":method", "GET"),  // 2
    (":method", "POST"),  // 3
    (":path", "/"),  // 4
    (":path", "/index.html"),  // 5
    (":scheme", "http"),  // 6
    (":scheme", "https"),  // 7
    (":status", "200"),  // 8
    (":status", "204"),  // 9
    (":status", "206"),  // 10
    (":status", "304"),  // 11
    (":status", "400"),  // 12
    (":status", "404"),  // 13
    (":status", "500"),  // 14
    ("accept-charset", ""),  // 15
    ("accept-encoding", "gzip, deflate"),  // 16
    ("accept-language", ""),  // 17
    ("accept-ranges", ""),  // 18
    ("accept", ""),  // 19
    ("access-control-allow-origin", ""),  // 20
    ("age", ""),  // 21
    ("allow", ""),  // 22
    ("authorization", ""),  // 23
    ("cache-control", ""),  // 24
    ("content-disposition", ""),  // 25
    ("content-encoding", ""),  // 26
    ("content-language", ""),  // 27
    ("content-length", ""),  // 28
    ("content-location", ""),  // 29
    ("content-range", ""),  // 30
    ("content-type", ""),  // 31
    ("cookie", ""),  // 32
    ("date", ""),  // 33
    ("etag", ""),  // 34
    ("expect", ""),  // 35
    ("expires", ""),  // 36
    ("from", ""),  // 37
    ("host", ""),  // 38
    ("if-match", ""),  // 39
    ("if-modified-since", ""),  // 40
    ("if-none-match", ""),  // 41
    ("if-range", ""),  // 42
    ("if-unmodified-since", ""),  // 43
    ("last-modified", ""),  // 44
    ("link", ""),  // 45
    ("location", ""),  // 46
    ("max-forwards", ""),  // 47
    ("proxy-authenticate", ""),  // 48
    ("proxy-authorization", ""),  // 49
    ("range", ""),  // 50
    ("referer", ""),  // 51
    ("refresh", ""),  // 52
    ("retry-after", ""),  // 53
    ("server", ""),  // 54
    ("set-cookie", ""),  // 55
    ("strict-transport-security", ""),  // 56
    ("transfer-encoding", ""),  // 57
    ("user-agent", ""),  // 58
    ("vary", ""),  // 59
    ("via", ""),  // 60
    ("www-authenticate", ""),  // 61
];

/// The length of each name.
pub const NAME_LENS: [usize; 62] = [
    0, 10, 7, 7, 5, 5, 7, 7, 7, 7, 7, 7, 7, 7, 7, 14,
    15, 15, 13, 6, 27, 3, 5, 13, 13, 19, 16, 16, 14, 16, 13, 12,
    6, 4, 4, 6, 7, 4, 4, 8, 17, 13, 8, 19, 13, 4, 8, 12,
    18, 19, 5, 7, 7, 11, 6, 10, 25, 17, 10, 4, 3, 16,
];

/// The highest index of the static table.
pub const STATIC_LEN: usize = 61;

/// The lowest index of the dynamic table, where its newest entry stands.
pub const FIRST_DYNAMIC: usize = 62;

/// The lowest index whose name is not a pseudo-header.
pub const FIRST_FIELD: usize = 15;

/// The bytes of the name at `idx`.
#[verifier::opaque]
pub open spec fn static_name(idx: int) -> Seq<u8> {
    vstd::utf8::encode_utf8(STATIC_TABLE@[idx].0@)
}

/// The bytes of the value at `idx`.
#[verifier::opaque]
pub open spec fn static_value(idx: int) -> Seq<u8> {
    vstd::utf8::encode_utf8(STATIC_TABLE@[idx].1@)
}

/// `name` is the name of a regular header field in the static table.
pub open spec fn is_known_name(name: Seq<u8>) -> bool {
    exists|idx: int| FIRST_FIELD <= idx <= STATIC_LEN && #[trigger] static_name(idx) == name
}

/// A character of the names in the static table.
spec fn is_plain(c: char) -> bool {
    'a' <= c <= 'z' || c == '-'
}

proof fn lemma_plain(text: Seq<char>, len: int)
    requires
        0 < text.len() < 100,
        text.len() == len,
        forall|i: int| 0 <= i < text.len() ==> is_plain(#[trigger] text[i]),
    ensures
        http_types::is_name(vstd::utf8::encode_utf8(text)),
        vstd::utf8::encode_utf8(text).len() == len,
{
    assert(vstd::utf8::is_ascii_chars(text));
    vstd::utf8::is_ascii_chars_encode_utf8(text);
    let bytes = vstd::utf8::encode_utf8(text);
    assert forall|i: int| 0 <= i < bytes.len() implies http_types::is_name_byte(
        #[trigger] bytes[i],
    ) by {
        assert(is_plain(text[i]));
    }
}

/// The names of the regular header fields are lower-case header names.
pub proof fn lemma_field_name(idx: int)
    requires
        FIRST_FIELD <= idx <= STATIC_LEN,
    ensures
        http_types::is_name(static_name(idx)),
        static_name(idx).len() == NAME_LENS@[idx],
{
    reveal(static_name);
    if idx == 15 {
        reveal_strlit("accept-charset");
        lemma_plain("accept-charset"@, 14);
    } else if idx == 16 {
        reveal_strlit("accept-encoding");
        lemma_plain("accept-encoding"@, 15);
    } else if idx == 17 {
        reveal_strlit("accept-language");
        lemma_plain("accept-language"@, 15);
    } else if idx == 18 {
        reveal_strlit("accept-ranges");
        lemma_plain("accept-ranges"@, 13);
    } else if idx == 19 {
        reveal_strlit("accept");
        lemma_plain("accept"@, 6);
    } else if idx == 20 {
        reveal_strlit("access-control-allow-origin");
        lemma_plain("access-control-allow-origin"@, 27);
    } else if idx == 21 {
        reveal_strlit("age");
        lemma_plain("age"@, 3);
    } else if idx == 22 {
        reveal_strlit("allow");
        lemma_plain("allow"@, 5);
    } else if idx == 23 {
        reveal_strlit("authorization");
        lemma_plain("authorization"@, 13);
    } else if idx == 24 {
        reveal_strlit("cache-control");
        lemma_plain("cache-control"@, 13);
    } else if idx == 25 {
        reveal_strlit("content-disposition");
        lemma_plain("content-disposition"@, 19);
    } else if idx == 26 {
        reveal_strlit("content-encoding");
        lemma_plain("content-encoding"@, 16);
    } else if idx == 27 {
        reveal_strlit("content-language");
        lemma_plain("content-language"@, 16);
    } else if idx == 28 {
        reveal_strlit("content-length");
        lemma_plain("content-length"@, 14);
    } else if idx == 29 {
        reveal_strlit("content-location");
        lemma_plain("content-location"@, 16);
    } else if idx == 30 {
        reveal_strlit("content-range");
        lemma_plain("content-range"@, 13);
    } else if idx == 31 {
        reveal_strlit("content-type");
        lemma_plain("content-type"@, 12);
    } else if idx == 32 {
        reveal_strlit("cookie");
        lemma_plain("cookie"@, 6);
    } else if idx == 33 {
        reveal_strlit("date");
        lemma_plain("date"@, 4);
    } else if idx == 34 {
        reveal_strlit("etag");
        lemma_plain("etag"@, 4);
    } else if idx == 35 {
        reveal_strlit("expect");
        lemma_plain("expect"@, 6);
    } else if idx == 36 {
        reveal_strlit("expires");
        lemma_plain("expires"@, 7);
    } else if idx == 37 {
        reveal_strlit("from");
        lemma_plain("from"@, 4);
    } else if idx == 38 {
        reveal_strlit("host");
        lemma_plain("host"@, 4);
    } else if idx == 39 {
        reveal_strlit("if-match");
        lemma_plain("if-match"@, 8);
    } else if idx == 40 {
        reveal_strlit("if-modified-since");
        lemma_plain("if-modified-since"@, 17);
    } else if idx == 41 {
        reveal_strlit("if-none-match");
        lemma_plain("if-none-match"@, 13);
    } else if idx == 42 {
        reveal_strlit("if-range");
        lemma_plain("if-range"@, 8);
    } else if idx == 43 {
        reveal_strlit("if-unmodified-since");
        lemma_plain("if-unmodified-since"@, 19);
    } else if idx == 44 {
        reveal_strlit("last-modified");
        lemma_plain("last-modified"@, 13);
    } else if idx == 45 {
        reveal_strlit("link");
        lemma_plain("link"@, 4);
    } else if idx == 46 {
        reveal_strlit("location");
        lemma_plain("location"@, 8);
    } else if idx == 47 {
        reveal_strlit("max-forwards");
        lemma_plain("max-forwards"@, 12);
    } else if idx == 48 {
        reveal_strlit("proxy-authenticate");
        lemma_plain("proxy-authenticate"@, 18);
    } else if idx == 49 {
        reveal_strlit("proxy-authorization");
        lemma_plain("proxy-authorization"@, 19);
    } else if idx == 50 {
        reveal_strlit("range");
        lemma_plain("range"@, 5);
    } else if idx == 51 {
        reveal_strlit("referer");
        lemma_plain("referer"@, 7);
    } else if idx == 52 {
        reveal_strlit("refresh");
        lemma_plain("refresh"@, 7);
    } else if idx == 53 {
        reveal_strlit("retry-after");
        lemma_plain("retry-after"@, 11);
    } else if idx == 54 {
        reveal_strlit("server");
        lemma_plain("server"@, 6);
    } else if idx == 55 {
        reveal_strlit("set-cookie");
        lemma_plain("set-cookie"@, 10);
    } else if idx == 56 {
        reveal_strlit("strict-transport-security");
        lemma_plain("strict-transport-security"@, 25);
    } else if idx == 57 {
        reveal_strlit("transfer-encoding");
        lemma_plain("transfer-encoding"@, 17);
    } else if idx == 58 {
        reveal_strlit("user-agent");
        lemma_plain("user-agent"@, 10);
    } else if idx == 59 {
        reveal_strlit("vary");
        lemma_plain("vary"@, 4);
    } else if idx == 60 {
        reveal_strlit("via");
        lemma_plain("via"@, 3);
    } else if idx == 61 {
        reveal_strlit("www-authenticate");
        lemma_plain("www-authenticate"@, 16);
    }
}

/// The names of the pseudo-headers.
pub proof fn lemma_pseudo_name(idx: int)
    requires
        1 <= idx < FIRST_FIELD,
    ensures
        static_name(idx) == vstd::utf8::encode_utf8(
            if idx == 1 {
                ":authority"@
            } else if idx <= 3 {
                ":method"@
            } else if idx <= 5 {
                ":path"@
            } else if idx <= 7 {
                ":scheme"@
            } else {
                ":status"@
            },
        ),
        static_name(idx).len() == NAME_LENS@[idx],
        static_name(idx)[0] == 0x3a,
{
    reveal(static_name);
    reveal_strlit(":authority");
    reveal_strlit(":method");
    reveal_strlit(":path");
    reveal_strlit(":scheme");
    reveal_strlit(":status");
    vstd::utf8::is_ascii_chars_encode_utf8(":authority"@);
    vstd::utf8::is_ascii_chars_encode_utf8(":method"@);
    vstd::utf8::is_ascii_chars_encode_utf8(":path"@);
    vstd::utf8::is_ascii_chars_encode_utf8(":scheme"@);
    vstd::utf8::is_ascii_chars_encode_utf8(":status"@);
}

/// No name has more than 27 bytes.
pub proof fn lemma_name_len(idx: int)
    requires
        1 <= idx <= STATIC_LEN,
    ensures
        static_name(idx).len() == NAME_LENS@[idx] <= 27,
{
    if idx < FIRST_FIELD {
        lemma_pseudo_name(idx);
    } else {
        lemma_field_name(idx);
    }
}

/// The name at an index of the static table.
pub fn static_name_bytes(idx: u8) -> (name: &'static [u8])
    requires
        idx <= STATIC_LEN,
    ensures
        name@ == static_name(idx as int),
{
    proof {
        reveal(static_name);
    }
    STATIC_TABLE[idx as usize].0.as_bytes()
}

/// Two byte strings are the same.
pub fn same_bytes(a: &[u8], b: &[u8]) -> (r: bool)
    ensures
        r == (a@ == b@),
{
    if a.len() != b.len() {
        return false;
    }
    let mut i: usize = 0;
    while i < a.len()
        invariant
            i <= a@.len(),
            a@.len() == b@.len(),
            a@.take(i as int) == b@.take(i as int),
        decreases a@.len() - i,
    {
        if a[i] != b[i] {
            return false;
        }
        proof {
            assert(a@.take(i + 1) =~= a@.take(i as int).push(a@[i as int]));
            assert(b@.take(i + 1) =~= b@.take(i as int).push(b@[i as int]));
        }
        i = i + 1;
    }
    assert(a@.take(i as int) =~= a@);
    assert(b@.take(i as int) =~= b@);
    true
}

/// The header name at an index of the static table from 15 on.
pub fn static_idx_to_header_name(idx: u8) -> (name: HeaderName)
    requires
        FIRST_FIELD <= idx <= STATIC_LEN,
    ensures
        http_types::name_bytes(name) == static_name(idx as int),
{
    proof {
        lemma_field_name(idx as int);
        reveal(static_name);
    }
    http_types::name_from_static(STATIC_TABLE[idx as usize].0)
}

/// Looks for `name` among the static table's names at `places`.
fn find(name: &[u8], places: &[u8]) -> (r: Option<HeaderName>)
    requires
        forall|i: int| 0 <= i < places@.len() ==> FIRST_FIELD <= #[trigger] places@[i] <= STATIC_LEN,
    ensures
        r is Some <==> exists|i: int|
            0 <= i < places@.len() && static_name((#[trigger] places@[i]) as int) == name@,
        r matches Some(found) ==> http_types::name_bytes(found) == name@,
{
    let mut i: usize = 0;
    while i < places.len()
        invariant
            i <= places@.len(),
            forall|j: int| 0 <= j < places@.len() ==> FIRST_FIELD <= #[trigger] places@[j] <= STATIC_LEN,
            forall|j: int| 0 <= j < i ==> static_name((#[trigger] places@[j]) as int) != name@,
        decreases places@.len() - i,
    {
        let idx: u8 = places[i];
        if same_bytes(name, static_name_bytes(idx)) {
            assert(static_name(places@[i as int] as int) == name@);
            return Some(static_idx_to_header_name(idx));
        }
        i = i + 1;
    }
    None
}

/// Looks for `name` among the names of the regular header fields in the static
/// table: only those of its length are compared with it.
pub fn match_known_header(name: &[u8]) -> (r: Option<HeaderName>)
    ensures
        r is Some <==> is_known_name(name@),
        r matches Some(found) ==> http_types::name_bytes(found) == name@,
{
    proof {
        assert forall|idx: int|
            FIRST_FIELD <= idx <= STATIC_LEN && #[trigger] static_name(idx) == name@ implies name@.len()
            == NAME_LENS@[idx] by {
            lemma_field_name(idx);
        }
    }
    match name.len() {
        3 => find(name, &[21, 60]),
        4 => find(name, &[33, 34, 37, 38, 45, 59]),
        5 => find(name, &[22, 50]),
        6 => find(name, &[19, 32, 35, 54]),
        7 => find(name, &[36, 51, 52]),
        8 => find(name, &[39, 42, 46]),
        10 => find(name, &[55, 58]),
        11 => find(name, &[53]),
        12 => find(name, &[31, 47]),
        13 => find(name, &[18, 23, 24, 30, 41, 44]),
        14 => find(name, &[15, 28]),
        15 => find(name, &[16, 17]),
        16 => find(name, &[26, 27, 29, 61]),
        17 => find(name, &[40, 57]),
        18 => find(name, &[48]),
        19 => find(name, &[25, 43, 49]),
        25 => find(name, &[56]),
        27 => find(name, &[20]),
        _ => None,
    }
}

} // verus!
