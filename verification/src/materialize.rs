//! Making headers.
use crate::buffers;
use crate::error::{DecoderError, NeedMore};
use crate::headers;
use crate::headers::{BytesStr, Header};
use crate::http_types;
use crate::static_table;
use bytes::Bytes;
use vstd::prelude::*;

verus! {

/// What the values in the static table say.
pub proof fn lemma_static_values()
    ensures
        forall|idx: int|
            1 <= idx <= 61 ==> #[trigger] static_table::static_value(idx)
                == vstd::utf8::encode_utf8(static_table::STATIC_TABLE@[idx].1@),
        forall|idx: int|
            8 <= idx <= 14 ==> http_types::is_status(#[trigger] static_table::static_value(idx)),
        http_types::status_of(static_table::static_value(8)) == 200,
        http_types::status_of(static_table::static_value(9)) == 204,
        http_types::status_of(static_table::static_value(10)) == 206,
        http_types::status_of(static_table::static_value(11)) == 304,
        http_types::status_of(static_table::static_value(12)) == 400,
        http_types::status_of(static_table::static_value(13)) == 404,
        http_types::status_of(static_table::static_value(14)) == 500,
        forall|idx: int|
            15 <= idx <= 61 ==> http_types::is_value(#[trigger] static_table::static_value(idx)),
        forall|idx: int|
            15 <= idx <= 61 ==> vstd::utf8::is_ascii_chars(
                (#[trigger] static_table::STATIC_TABLE@[idx]).1@,
            ),
        http_types::is_method(static_table::static_value(2)),
        http_types::is_method(static_table::static_value(3)),
{
    reveal(static_table::static_value);
    reveal_strlit("");
    reveal_strlit("GET");
    reveal_strlit("POST");
    reveal_strlit("200");
    reveal_strlit("204");
    reveal_strlit("206");
    reveal_strlit("304");
    reveal_strlit("400");
    reveal_strlit("404");
    reveal_strlit("500");
    reveal_strlit("gzip, deflate");
    lemma_ascii("");
    lemma_ascii("GET");
    lemma_ascii("POST");
    lemma_ascii("200");
    lemma_ascii("204");
    lemma_ascii("206");
    lemma_ascii("304");
    lemma_ascii("400");
    lemma_ascii("404");
    lemma_ascii("500");
    lemma_ascii("gzip, deflate");
}

proof fn lemma_ascii(text: &str)
    requires
        vstd::utf8::is_ascii_chars(text@),
    ensures
        text@.len() == vstd::utf8::encode_utf8(text@).len(),
        forall|i: int|
            0 <= i < text@.len() ==> text@[i] as u8 == #[trigger] vstd::utf8::encode_utf8(text@)[i],
{
    vstd::utf8::is_ascii_chars_encode_utf8(text@);
}

/// The status code with a number that is one.
fn status(number: u16) -> (r: Header)
    requires
        100 <= number <= 999,
    ensures
        r@ == headers::HeaderView::Status(number as nat),
{
    match http_types::status_from_u16(number) {
        Ok(status) => Header::Status(status),
        Err(_) => {
            assert(false);
            Header::Path(BytesStr::from_static(""))
        },
    }
}

/// The header at an index of the static table.
pub fn materialize_static_full(idx: u8) -> (r: Header)
    requires
        1 <= idx <= 61,
    ensures
        r@ == headers::static_entry(idx as int),
{
    proof {
        lemma_static_values();
    }
    match idx {
        1 => Header::Authority(BytesStr::from_static("")),
        2 => Header::Method(http_types::method_get()),
        3 => Header::Method(http_types::method_post()),
        4 => Header::Path(BytesStr::from_static("/")),
        5 => Header::Path(BytesStr::from_static("/index.html")),
        6 => Header::Scheme(BytesStr::from_static("http")),
        7 => Header::Scheme(BytesStr::from_static("https")),
        8 => status(200),
        9 => status(204),
        10 => status(206),
        11 => status(304),
        12 => status(400),
        13 => status(404),
        14 => status(500),
        _ => {
            let name = static_table::static_idx_to_header_name(idx);
            let value = http_types::value_from_static(static_table::STATIC_TABLE[idx as usize].1);
            Header::Field { name, value }
        },
    }
}

/// The header with the name at an index of the static table and this value.
pub fn materialize_static_name(idx: u8, value: Bytes) -> (r: Result<Header, DecoderError>)
    ensures
        headers::outcome(r) == headers::static_header(idx as int, buffers::shared_bytes(value)),
{
    match idx {
        1 => match BytesStr::try_from(value) {
            Ok(text) => Ok(Header::Authority(text)),
            Err(e) => Err(e),
        },
        2 | 3 => headers::new_method(value),
        4 | 5 => match BytesStr::try_from(value) {
            Ok(text) => Ok(Header::Path(text)),
            Err(e) => Err(e),
        },
        6 | 7 => match BytesStr::try_from(value) {
            Ok(text) => Ok(Header::Scheme(text)),
            Err(e) => Err(e),
        },
        8..=14 => match http_types::status_from_bytes(buffers::shared_slice(&value)) {
            Ok(status) => Ok(Header::Status(status)),
            Err(_) => Err(DecoderError::InvalidStatusCode),
        },
        15..=61 => {
            proof {
                static_table::lemma_field_name(idx as int);
            }
            let name = static_table::static_idx_to_header_name(idx);
            match http_types::value_from_shared(value) {
                Ok(value) => Ok(Header::Field { name, value }),
                Err(_) => Err(DecoderError::InvalidUtf8),
            }
        },
        _ => Err(DecoderError::InvalidTableIndex),
    }
}

/// The header with this name and this value. A name of the static table is
/// recognised without being checked byte by byte.
pub fn materialize_field(name: Bytes, value: Bytes) -> (r: Result<Header, DecoderError>)
    ensures
        headers::outcome(r) == headers::header_of(
            buffers::shared_bytes(name),
            buffers::shared_bytes(value),
        ),
{
    let text = buffers::shared_slice(&name);
    if text.len() == 0 {
        return Err(DecoderError::NeedMore(NeedMore::UnexpectedEndOfStream));
    }
    if text[0] == 0x3a {
        return Header::new(name, value);
    }
    let known = match static_table::match_known_header(text) {
        Some(known) => {
            proof {
                let idx = choose|idx: int|
                    15 <= idx <= 61 && #[trigger] static_table::static_name(idx) == text@;
                static_table::lemma_field_name(idx);
            }
            known
        },
        None => match http_types::name_from_lowercase(text) {
            Ok(name) => name,
            Err(_) => {
                return Err(DecoderError::InvalidUtf8);
            },
        },
    };
    match http_types::value_from_shared(value) {
        Ok(value) => Ok(Header::Field { name: known, value }),
        Err(_) => Err(DecoderError::InvalidUtf8),
    }
}

} // verus!
