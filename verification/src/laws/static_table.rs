//! The static table itself.
use crate::http_types;
use crate::static_table;
use vstd::prelude::*;

verus! {

/// The names, from the first entry to the last.
pub proof fn law_static_names()
    ensures
        static_table::static_name(1) == vstd::utf8::encode_utf8(":authority"@),
        static_table::static_name(2) == vstd::utf8::encode_utf8(":method"@),
        static_table::static_name(3) == vstd::utf8::encode_utf8(":method"@),
        static_table::static_name(4) == vstd::utf8::encode_utf8(":path"@),
        static_table::static_name(5) == vstd::utf8::encode_utf8(":path"@),
        static_table::static_name(6) == vstd::utf8::encode_utf8(":scheme"@),
        static_table::static_name(7) == vstd::utf8::encode_utf8(":scheme"@),
        static_table::static_name(8) == vstd::utf8::encode_utf8(":status"@),
        static_table::static_name(9) == vstd::utf8::encode_utf8(":status"@),
        static_table::static_name(10) == vstd::utf8::encode_utf8(":status"@),
        static_table::static_name(11) == vstd::utf8::encode_utf8(":status"@),
        static_table::static_name(12) == vstd::utf8::encode_utf8(":status"@),
        static_table::static_name(13) == vstd::utf8::encode_utf8(":status"@),
        static_table::static_name(14) == vstd::utf8::encode_utf8(":status"@),
        static_table::static_name(15) == vstd::utf8::encode_utf8("accept-charset"@),
        static_table::static_name(16) == vstd::utf8::encode_utf8("accept-encoding"@),
        static_table::static_name(17) == vstd::utf8::encode_utf8("accept-language"@),
        static_table::static_name(18) == vstd::utf8::encode_utf8("accept-ranges"@),
        static_table::static_name(19) == vstd::utf8::encode_utf8("accept"@),
        static_table::static_name(20) == vstd::utf8::encode_utf8("access-control-allow-origin"@),
        static_table::static_name(21) == vstd::utf8::encode_utf8("age"@),
        static_table::static_name(22) == vstd::utf8::encode_utf8("allow"@),
        static_table::static_name(23) == vstd::utf8::encode_utf8("authorization"@),
        static_table::static_name(24) == vstd::utf8::encode_utf8("cache-control"@),
        static_table::static_name(25) == vstd::utf8::encode_utf8("content-disposition"@),
        static_table::static_name(26) == vstd::utf8::encode_utf8("content-encoding"@),
        static_table::static_name(27) == vstd::utf8::encode_utf8("content-language"@),
        static_table::static_name(28) == vstd::utf8::encode_utf8("content-length"@),
        static_table::static_name(29) == vstd::utf8::encode_utf8("content-location"@),
        static_table::static_name(30) == vstd::utf8::encode_utf8("content-range"@),
        static_table::static_name(31) == vstd::utf8::encode_utf8("content-type"@),
        static_table::static_name(32) == vstd::utf8::encode_utf8("cookie"@),
        static_table::static_name(33) == vstd::utf8::encode_utf8("date"@),
        static_table::static_name(34) == vstd::utf8::encode_utf8("etag"@),
        static_table::static_name(35) == vstd::utf8::encode_utf8("expect"@),
        static_table::static_name(36) == vstd::utf8::encode_utf8("expires"@),
        static_table::static_name(37) == vstd::utf8::encode_utf8("from"@),
        static_table::static_name(38) == vstd::utf8::encode_utf8("host"@),
        static_table::static_name(39) == vstd::utf8::encode_utf8("if-match"@),
        static_table::static_name(40) == vstd::utf8::encode_utf8("if-modified-since"@),
        static_table::static_name(41) == vstd::utf8::encode_utf8("if-none-match"@),
        static_table::static_name(42) == vstd::utf8::encode_utf8("if-range"@),
        static_table::static_name(43) == vstd::utf8::encode_utf8("if-unmodified-since"@),
        static_table::static_name(44) == vstd::utf8::encode_utf8("last-modified"@),
        static_table::static_name(45) == vstd::utf8::encode_utf8("link"@),
        static_table::static_name(46) == vstd::utf8::encode_utf8("location"@),
        static_table::static_name(47) == vstd::utf8::encode_utf8("max-forwards"@),
        static_table::static_name(48) == vstd::utf8::encode_utf8("proxy-authenticate"@),
        static_table::static_name(49) == vstd::utf8::encode_utf8("proxy-authorization"@),
        static_table::static_name(50) == vstd::utf8::encode_utf8("range"@),
        static_table::static_name(51) == vstd::utf8::encode_utf8("referer"@),
        static_table::static_name(52) == vstd::utf8::encode_utf8("refresh"@),
        static_table::static_name(53) == vstd::utf8::encode_utf8("retry-after"@),
        static_table::static_name(54) == vstd::utf8::encode_utf8("server"@),
        static_table::static_name(55) == vstd::utf8::encode_utf8("set-cookie"@),
        static_table::static_name(56) == vstd::utf8::encode_utf8("strict-transport-security"@),
        static_table::static_name(57) == vstd::utf8::encode_utf8("transfer-encoding"@),
        static_table::static_name(58) == vstd::utf8::encode_utf8("user-agent"@),
        static_table::static_name(59) == vstd::utf8::encode_utf8("vary"@),
        static_table::static_name(60) == vstd::utf8::encode_utf8("via"@),
        static_table::static_name(61) == vstd::utf8::encode_utf8("www-authenticate"@),
{
    reveal(static_table::static_name);
}

/// The values. From the seventeenth entry on they are empty.
pub proof fn law_static_values(idx: int)
    ensures
        static_table::static_value(1) == vstd::utf8::encode_utf8(""@),
        static_table::static_value(2) == vstd::utf8::encode_utf8("GET"@),
        static_table::static_value(3) == vstd::utf8::encode_utf8("POST"@),
        static_table::static_value(4) == vstd::utf8::encode_utf8("/"@),
        static_table::static_value(5) == vstd::utf8::encode_utf8("/index.html"@),
        static_table::static_value(6) == vstd::utf8::encode_utf8("http"@),
        static_table::static_value(7) == vstd::utf8::encode_utf8("https"@),
        static_table::static_value(8) == vstd::utf8::encode_utf8("200"@),
        static_table::static_value(9) == vstd::utf8::encode_utf8("204"@),
        static_table::static_value(10) == vstd::utf8::encode_utf8("206"@),
        static_table::static_value(11) == vstd::utf8::encode_utf8("304"@),
        static_table::static_value(12) == vstd::utf8::encode_utf8("400"@),
        static_table::static_value(13) == vstd::utf8::encode_utf8("404"@),
        static_table::static_value(14) == vstd::utf8::encode_utf8("500"@),
        static_table::static_value(15) == vstd::utf8::encode_utf8(""@),
        static_table::static_value(16) == vstd::utf8::encode_utf8("gzip, deflate"@),
        17 <= idx <= 61 ==> static_table::static_value(idx) == vstd::utf8::encode_utf8(""@),
{
    reveal(static_table::static_value);
}

/// An empty text has no bytes, and a text of ASCII characters has one for each.
pub proof fn law_ascii(text: Seq<char>)
    requires
        vstd::utf8::is_ascii_chars(text),
    ensures
        vstd::utf8::encode_utf8(text).len() == text.len(),
        forall|i: int|
            0 <= i < text.len() ==> #[trigger] vstd::utf8::encode_utf8(text)[i] == text[i] as u8,
{
    vstd::utf8::is_ascii_chars_encode_utf8(text);
}

/// The known names are those of the entries from 15 to 61, and are header names.
pub proof fn law_known_name(name: Seq<u8>, idx: int)
    ensures
        15 <= idx <= 61 && static_table::static_name(idx) == name ==> static_table::is_known_name(
            name,
        ),
        static_table::is_known_name(name) ==> http_types::is_name(name) && exists|place: int|
            15 <= place <= 61 && #[trigger] static_table::static_name(place) == name,
{
    if static_table::is_known_name(name) {
        let place = choose|place: int|
            15 <= place <= 61 && #[trigger] static_table::static_name(place) == name;
        static_table::lemma_field_name(place);
    }
}

} // verus!
