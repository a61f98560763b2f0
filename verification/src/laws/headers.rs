//! The ways to make a header agree.
use crate::error::{DecoderError, NeedMore};
use crate::headers;
use crate::headers::{Header, HeaderView};
use crate::http_types;
use crate::huffman::validate;
use crate::materialize;
use crate::static_table;
use vstd::prelude::*;

verus! {

/// The entries of the static table are made without a check, and are those that
/// the checks let pass: with the name from the table, and with the name spelled
/// out.
pub proof fn law_static_entries(idx: int)
    requires
        1 <= idx <= static_table::STATIC_LEN,
    ensures
        headers::static_header(idx, static_table::static_value(idx)) == Ok::<
            headers::HeaderView,
            DecoderError,
        >(headers::static_entry(idx)),
        headers::header_of(static_table::static_name(idx), static_table::static_value(idx)) == Ok::<
            headers::HeaderView,
            DecoderError,
        >(headers::static_entry(idx)),
{
    materialize::lemma_static_values();
    law_static_name(idx, static_table::static_value(idx));
    if idx < static_table::FIRST_FIELD {
        reveal(static_table::static_value);
        vstd::utf8::encode_utf8_valid_utf8(static_table::STATIC_TABLE@[idx].1@);
    } else {
        static_table::lemma_field_name(idx);
    }
}

/// A name from the static table makes the header that the name spelled out makes.
/// Only an invalid status is refused with another error.
pub proof fn law_static_name(idx: int, value: Seq<u8>)
    requires
        1 <= idx <= static_table::STATIC_LEN,
    ensures
        ({
            let short = headers::static_header(idx, value);
            let long = headers::header_of(static_table::static_name(idx), value);
            if 8 <= idx <= 14 && !http_types::is_status(value) {
                &&& short == Err::<headers::HeaderView, DecoderError>(
                    DecoderError::InvalidStatusCode,
                )
                &&& long == Err::<headers::HeaderView, DecoderError>(DecoderError::InvalidUtf8)
            } else {
                short == long
            }
        }),
{
    static_table::lemma_name_len(idx);
    if idx < static_table::FIRST_FIELD {
        static_table::lemma_pseudo_name(idx);
        lemma_pseudo_names_differ();
    } else {
        static_table::lemma_field_name(idx);
        let name = static_table::static_name(idx);
        assert(http_types::is_name_byte(name[0]));
    }
}

proof fn lemma_pseudo_names_differ()
    ensures
        vstd::utf8::encode_utf8(":method"@) != vstd::utf8::encode_utf8(":authority"@),
        vstd::utf8::encode_utf8(":scheme"@) != vstd::utf8::encode_utf8(":authority"@),
        vstd::utf8::encode_utf8(":scheme"@) != vstd::utf8::encode_utf8(":method"@),
        vstd::utf8::encode_utf8(":path"@) != vstd::utf8::encode_utf8(":authority"@),
        vstd::utf8::encode_utf8(":path"@) != vstd::utf8::encode_utf8(":method"@),
        vstd::utf8::encode_utf8(":path"@) != vstd::utf8::encode_utf8(":scheme"@),
        vstd::utf8::encode_utf8(":status"@) != vstd::utf8::encode_utf8(":authority"@),
        vstd::utf8::encode_utf8(":status"@) != vstd::utf8::encode_utf8(":method"@),
        vstd::utf8::encode_utf8(":status"@) != vstd::utf8::encode_utf8(":scheme"@),
        vstd::utf8::encode_utf8(":status"@) != vstd::utf8::encode_utf8(":path"@),
        vstd::utf8::encode_utf8(":status"@) != vstd::utf8::encode_utf8(":protocol"@),
{
    reveal_strlit(":authority");
    reveal_strlit(":method");
    reveal_strlit(":scheme");
    reveal_strlit(":path");
    reveal_strlit(":protocol");
    reveal_strlit(":status");
    vstd::utf8::is_ascii_chars_encode_utf8(":authority"@);
    vstd::utf8::is_ascii_chars_encode_utf8(":method"@);
    vstd::utf8::is_ascii_chars_encode_utf8(":scheme"@);
    vstd::utf8::is_ascii_chars_encode_utf8(":path"@);
    vstd::utf8::is_ascii_chars_encode_utf8(":protocol"@);
    vstd::utf8::is_ascii_chars_encode_utf8(":status"@);
    let method = vstd::utf8::encode_utf8(":method"@);
    let scheme = vstd::utf8::encode_utf8(":scheme"@);
    let status = vstd::utf8::encode_utf8(":status"@);
    assert(method[1] as char == 'm' && scheme[1] as char == 's' && status[1] as char == 's');
    assert(scheme[2] as char == 'c' && status[2] as char == 't');
}

/// The names that are matched against the table are header names, so that a field
/// with one of them is the field that its name spelled out makes.
pub proof fn law_known_names(name: Seq<u8>)
    requires
        static_table::is_known_name(name),
    ensures
        http_types::is_name(name),
{
    let idx = choose|idx: int|
        static_table::FIRST_FIELD <= idx <= static_table::STATIC_LEN && #[trigger]
            static_table::static_name(idx) == name;
    static_table::lemma_field_name(idx);
}

/// A header that was made says what it was made of: its size is that of the name
/// and the value, and thirty-two.
pub proof fn law_header_size(name: Seq<u8>, value: Seq<u8>)
    requires
        headers::header_of(name, value) is Ok,
    ensures
        (headers::header_of(name, value)->Ok_0).size() == name.len() + value.len() + 32,
{
    reveal_strlit(":authority");
    reveal_strlit(":method");
    reveal_strlit(":scheme");
    reveal_strlit(":path");
    reveal_strlit(":protocol");
    reveal_strlit(":status");
    vstd::utf8::is_ascii_chars_encode_utf8(":authority"@);
    vstd::utf8::is_ascii_chars_encode_utf8(":method"@);
    vstd::utf8::is_ascii_chars_encode_utf8(":scheme"@);
    vstd::utf8::is_ascii_chars_encode_utf8(":path"@);
    vstd::utf8::is_ascii_chars_encode_utf8(":protocol"@);
    vstd::utf8::is_ascii_chars_encode_utf8(":status"@);
}

/// A header says what it holds.
pub proof fn law_view(header: Header)
    ensures
        header matches Header::Field { name, value } ==> header@ == (HeaderView::Field {
            name: http_types::name_bytes(name),
            value: http_types::value_bytes(value),
        }),
        header matches Header::Authority(text) ==> header@ == HeaderView::Authority(text@),
        header matches Header::Method(method) ==> header@ == HeaderView::Method(
            http_types::method_bytes(method),
        ),
        header matches Header::Scheme(text) ==> header@ == HeaderView::Scheme(text@),
        header matches Header::Path(text) ==> header@ == HeaderView::Path(text@),
        header matches Header::Protocol(text) ==> header@ == HeaderView::Protocol(text@),
        header matches Header::Status(status) ==> header@ == HeaderView::Status(
            http_types::status_number(status),
        ),
{
}

/// A result says what its header says, or which error it is.
pub proof fn law_outcome(r: Result<Header, DecoderError>)
    ensures
        r matches Ok(header) ==> headers::outcome(r) == Ok::<HeaderView, DecoderError>(header@),
        r matches Err(e) ==> headers::outcome(r) == Err::<HeaderView, DecoderError>(e),
{
}

/// The size of a header is the length of its name, that of its value, and
/// thirty-two.
pub proof fn law_sizes(name: Seq<u8>, text: Seq<u8>, number: nat)
    ensures
        (HeaderView::Field { name, value: text }).size() == name.len() + text.len() + 32,
        HeaderView::Authority(text).size() == text.len() + 42,
        HeaderView::Method(text).size() == text.len() + 39,
        HeaderView::Scheme(text).size() == text.len() + 39,
        HeaderView::Path(text).size() == text.len() + 37,
        HeaderView::Protocol(text).size() == text.len() + 41,
        HeaderView::Status(number).size() == 42,
{
}

/// Every method makes the method header that says it, whether its name is spelled
/// out or comes from the static table, and nothing else does.
pub proof fn law_method(value: Seq<u8>, idx: int)
    requires
        idx == 2 || idx == 3,
    ensures
        ({
            let spelled = headers::header_of(vstd::utf8::encode_utf8(":method"@), value);
            let named = headers::static_header(idx, value);
            if http_types::is_method(value) {
                &&& spelled == Ok::<HeaderView, DecoderError>(HeaderView::Method(value))
                &&& named == Ok::<HeaderView, DecoderError>(HeaderView::Method(value))
            } else {
                &&& spelled == Err::<HeaderView, DecoderError>(DecoderError::InvalidUtf8)
                &&& named == Err::<HeaderView, DecoderError>(DecoderError::InvalidUtf8)
            }
        }),
{
    lemma_pseudo_spelled();
    lemma_pseudo_names_differ();
}

/// Every text makes the authority, the scheme, the path and the protocol that say it,
/// and nothing else does.
pub proof fn law_texts(value: Seq<u8>)
    ensures
        vstd::utf8::valid_utf8(value) ==> {
            &&& headers::header_of(vstd::utf8::encode_utf8(":authority"@), value) == Ok::<
                HeaderView,
                DecoderError,
            >(HeaderView::Authority(value))
            &&& headers::header_of(vstd::utf8::encode_utf8(":scheme"@), value) == Ok::<
                HeaderView,
                DecoderError,
            >(HeaderView::Scheme(value))
            &&& headers::header_of(vstd::utf8::encode_utf8(":path"@), value) == Ok::<
                HeaderView,
                DecoderError,
            >(HeaderView::Path(value))
            &&& headers::header_of(vstd::utf8::encode_utf8(":protocol"@), value) == Ok::<
                HeaderView,
                DecoderError,
            >(HeaderView::Protocol(value))
            &&& headers::static_header(1, value) == Ok::<HeaderView, DecoderError>(
                HeaderView::Authority(value),
            )
            &&& headers::static_header(4, value) == Ok::<HeaderView, DecoderError>(
                HeaderView::Path(value),
            )
            &&& headers::static_header(5, value) == Ok::<HeaderView, DecoderError>(
                HeaderView::Path(value),
            )
            &&& headers::static_header(6, value) == Ok::<HeaderView, DecoderError>(
                HeaderView::Scheme(value),
            )
            &&& headers::static_header(7, value) == Ok::<HeaderView, DecoderError>(
                HeaderView::Scheme(value),
            )
        },
        !vstd::utf8::valid_utf8(value) ==> {
            let refused = Err::<HeaderView, DecoderError>(DecoderError::InvalidUtf8);
            &&& headers::header_of(vstd::utf8::encode_utf8(":authority"@), value) == refused
            &&& headers::header_of(vstd::utf8::encode_utf8(":scheme"@), value) == refused
            &&& headers::header_of(vstd::utf8::encode_utf8(":path"@), value) == refused
            &&& headers::header_of(vstd::utf8::encode_utf8(":protocol"@), value) == refused
            &&& headers::static_header(1, value) == refused
            &&& headers::static_header(4, value) == refused
            &&& headers::static_header(5, value) == refused
            &&& headers::static_header(6, value) == refused
            &&& headers::static_header(7, value) == refused
        },
{
    lemma_pseudo_spelled();
    lemma_pseudo_names_differ();
    lemma_protocol_differs();
}

/// Three digits that write down a number from 100 to 999 make the status with that
/// number; every such number is written down so.
pub proof fn law_status(number: nat, idx: int)
    requires
        100 <= number <= 999,
        8 <= idx <= 14,
    ensures
        ({
            let value = seq![
                (0x30 + number / 100) as u8,
                (0x30 + number / 10 % 10) as u8,
                (0x30 + number % 10) as u8,
            ];
            let made = Ok::<HeaderView, DecoderError>(HeaderView::Status(number));
            &&& headers::header_of(vstd::utf8::encode_utf8(":status"@), value) == made
            &&& headers::static_header(idx, value) == made
        }),
{
    lemma_pseudo_spelled();
    lemma_pseudo_names_differ();
}

/// What is not three digits, the first of them not zero, makes no status.
pub proof fn law_no_status(value: Seq<u8>, idx: int)
    requires
        8 <= idx <= 14,
        !(value.len() == 3 && 0x31 <= value[0] <= 0x39 && 0x30 <= value[1] <= 0x39 && 0x30
            <= value[2] <= 0x39),
    ensures
        headers::header_of(vstd::utf8::encode_utf8(":status"@), value) == Err::<
            HeaderView,
            DecoderError,
        >(DecoderError::InvalidUtf8),
        headers::static_header(idx, value) == Err::<HeaderView, DecoderError>(
            DecoderError::InvalidStatusCode,
        ),
{
    lemma_pseudo_spelled();
    lemma_pseudo_names_differ();
}

/// Every header name and every header value make the field with just these bytes.
/// Where one of them is none, and the name does not begin with a colon, there is no
/// field.
pub proof fn law_field(name: Seq<u8>, value: Seq<u8>)
    ensures
        http_types::is_name(name) && http_types::is_value(value) ==> headers::header_of(name, value)
            == Ok::<HeaderView, DecoderError>(HeaderView::Field { name, value }),
        name.len() > 0 && name[0] != 0x3a && !(http_types::is_name(name) && http_types::is_value(
            value,
        )) ==> headers::header_of(name, value) == Err::<HeaderView, DecoderError>(
            DecoderError::InvalidUtf8,
        ),
{
    if http_types::is_name(name) {
        assert(http_types::is_name_byte(name[0]));
    }
}

/// A name of a regular field in the static table and every header value make the
/// field with that name and just that value.
pub proof fn law_static_field(idx: int, value: Seq<u8>)
    requires
        15 <= idx <= 61,
    ensures
        http_types::is_value(value) ==> headers::static_header(idx, value) == Ok::<
            HeaderView,
            DecoderError,
        >(HeaderView::Field { name: static_table::static_name(idx), value }),
        !http_types::is_value(value) ==> headers::static_header(idx, value) == Err::<
            HeaderView,
            DecoderError,
        >(DecoderError::InvalidUtf8),
{
    static_table::lemma_field_name(idx);
}

/// There is no header without a name, none with another name that begins with a
/// colon, and none from outside the static table.
pub proof fn law_no_header(name: Seq<u8>, value: Seq<u8>, idx: int)
    ensures
        headers::header_of(Seq::empty(), value) == Err::<HeaderView, DecoderError>(
            DecoderError::NeedMore(NeedMore::UnexpectedEndOfStream),
        ),
        name.len() > 0 && name[0] == 0x3a && name != vstd::utf8::encode_utf8(":authority"@) && name
            != vstd::utf8::encode_utf8(":method"@) && name != vstd::utf8::encode_utf8(":scheme"@)
            && name != vstd::utf8::encode_utf8(":path"@) && name != vstd::utf8::encode_utf8(
            ":protocol"@,
        ) && name != vstd::utf8::encode_utf8(":status"@) ==> headers::header_of(name, value)
            == Err::<HeaderView, DecoderError>(DecoderError::InvalidPseudoheader),
        !(1 <= idx <= 61) ==> headers::static_header(idx, value) == Err::<HeaderView, DecoderError>(
            DecoderError::InvalidTableIndex,
        ),
{
}

/// What the entries of the static table say.
pub proof fn law_static_entry_views(idx: int)
    ensures
        headers::static_entry(1) == HeaderView::Authority(vstd::utf8::encode_utf8(""@)),
        headers::static_entry(2) == HeaderView::Method(vstd::utf8::encode_utf8("GET"@)),
        headers::static_entry(3) == HeaderView::Method(vstd::utf8::encode_utf8("POST"@)),
        headers::static_entry(4) == HeaderView::Path(vstd::utf8::encode_utf8("/"@)),
        headers::static_entry(5) == HeaderView::Path(vstd::utf8::encode_utf8("/index.html"@)),
        headers::static_entry(6) == HeaderView::Scheme(vstd::utf8::encode_utf8("http"@)),
        headers::static_entry(7) == HeaderView::Scheme(vstd::utf8::encode_utf8("https"@)),
        headers::static_entry(8) == HeaderView::Status(200),
        headers::static_entry(9) == HeaderView::Status(204),
        headers::static_entry(10) == HeaderView::Status(206),
        headers::static_entry(11) == HeaderView::Status(304),
        headers::static_entry(12) == HeaderView::Status(400),
        headers::static_entry(13) == HeaderView::Status(404),
        headers::static_entry(14) == HeaderView::Status(500),
        15 <= idx <= 61 ==> headers::static_entry(idx) == (HeaderView::Field {
            name: static_table::static_name(idx),
            value: static_table::static_value(idx),
        }),
{
    materialize::lemma_static_values();
}

/// What may stand in a header name: every printable ASCII character but the capital
/// letters and `(),/:;<=>?@[\]{}`.
pub proof fn law_name_byte(b: u8)
    ensures
        http_types::is_name_byte(b) <==> 0x21 <= b <= 0x7e && b != 0x28 && b != 0x29 && b != 0x2c
            && b != 0x2f && !(0x3a <= b <= 0x5d) && b != 0x7b && b != 0x7d,
{
}

/// What may stand in a method: every printable ASCII character but the quotation
/// mark and `(),/:;<=>?@[\]{}`.
pub proof fn law_method_byte(b: u8)
    ensures
        http_types::is_method_byte(b) <==> 0x21 <= b <= 0x7e && b != 0x22 && b != 0x28 && b != 0x29
            && b != 0x2c && b != 0x2f && !(0x3a <= b <= 0x40) && !(0x5b <= b <= 0x5d) && b != 0x7b
            && b != 0x7d,
{
}

/// What may stand in a header value: a tab, every printable ASCII character and the
/// space, and everything from 0x80 on.
pub proof fn law_value_byte(b: u8)
    ensures
        http_types::is_value_byte(b) <==> b == 0x09 || 0x20 <= b <= 0x7e || 0x80 <= b,
{
}

/// In a value there may stand a tab and all bytes from the space on but DEL; in a name,
/// by the quick check, none up to the space, no DEL and no capital letter.
pub proof fn law_checked_bytes(b: u8)
    ensures
        validate::value_byte(b) <==> b == 9 || 32 <= b <= 126 || b >= 128,
        validate::name_byte(b) <==> 33 <= b <= 64 || 91 <= b <= 126 || b >= 128,
{
}

/// Names, values and methods are strings of such bytes, and a name and a method have
/// one at least.
pub proof fn law_byte_strings(bytes: Seq<u8>)
    ensures
        http_types::is_name(bytes) <==> 1 <= bytes.len() <= 65535 && forall|i: int|
            0 <= i < bytes.len() ==> http_types::is_name_byte(#[trigger] bytes[i]),
        http_types::is_value(bytes) <==> forall|i: int|
            0 <= i < bytes.len() ==> http_types::is_value_byte(#[trigger] bytes[i]),
        http_types::is_method(bytes) <==> 1 <= bytes.len() && forall|i: int|
            0 <= i < bytes.len() ==> http_types::is_method_byte(#[trigger] bytes[i]),
{
}

/// The pseudo-headers' names begin with a colon.
proof fn lemma_pseudo_spelled()
    ensures
        vstd::utf8::encode_utf8(":authority"@).len() == 10,
        vstd::utf8::encode_utf8(":authority"@)[0] == 0x3a,
        vstd::utf8::encode_utf8(":method"@).len() == 7,
        vstd::utf8::encode_utf8(":method"@)[0] == 0x3a,
        vstd::utf8::encode_utf8(":scheme"@).len() == 7,
        vstd::utf8::encode_utf8(":scheme"@)[0] == 0x3a,
        vstd::utf8::encode_utf8(":path"@).len() == 5,
        vstd::utf8::encode_utf8(":path"@)[0] == 0x3a,
        vstd::utf8::encode_utf8(":protocol"@).len() == 9,
        vstd::utf8::encode_utf8(":protocol"@)[0] == 0x3a,
        vstd::utf8::encode_utf8(":status"@).len() == 7,
        vstd::utf8::encode_utf8(":status"@)[0] == 0x3a,
{
    reveal_strlit(":authority");
    reveal_strlit(":method");
    reveal_strlit(":scheme");
    reveal_strlit(":path");
    reveal_strlit(":protocol");
    reveal_strlit(":status");
    vstd::utf8::is_ascii_chars_encode_utf8(":authority"@);
    vstd::utf8::is_ascii_chars_encode_utf8(":method"@);
    vstd::utf8::is_ascii_chars_encode_utf8(":scheme"@);
    vstd::utf8::is_ascii_chars_encode_utf8(":path"@);
    vstd::utf8::is_ascii_chars_encode_utf8(":protocol"@);
    vstd::utf8::is_ascii_chars_encode_utf8(":status"@);
}

proof fn lemma_protocol_differs()
    ensures
        vstd::utf8::encode_utf8(":protocol"@) != vstd::utf8::encode_utf8(":authority"@),
        vstd::utf8::encode_utf8(":protocol"@) != vstd::utf8::encode_utf8(":method"@),
        vstd::utf8::encode_utf8(":protocol"@) != vstd::utf8::encode_utf8(":scheme"@),
        vstd::utf8::encode_utf8(":protocol"@) != vstd::utf8::encode_utf8(":path"@),
{
    lemma_pseudo_spelled();
}

} // verus!
