//! Headers.
use crate::buffers;
use crate::error::{DecoderError, NeedMore};
use crate::http_types;
use crate::static_table;
use bytes::Bytes;
use http::header::{HeaderName, HeaderValue};
use http::{Method, StatusCode};
use vstd::prelude::*;

verus! {

/// Shared bytes that are valid UTF-8.
#[derive(Debug)]
pub struct BytesStr {
    bytes: Bytes,
}

impl View for BytesStr {
    type V = Seq<u8>;

    closed spec fn view(&self) -> Seq<u8> {
        buffers::shared_bytes(self.bytes)
    }
}

impl BytesStr {
    #[verifier::type_invariant]
    spec fn is_text(&self) -> bool {
        vstd::utf8::valid_utf8(buffers::shared_bytes(self.bytes))
    }

    /// A text that lives for ever.
    pub fn from_static(text: &'static str) -> (r: BytesStr)
        ensures
            r@ == vstd::utf8::encode_utf8(text@),
    {
        proof {
            vstd::utf8::encode_utf8_valid_utf8(text@);
        }
        BytesStr { bytes: buffers::from_static(text.as_bytes()) }
    }

    /// Takes bytes that are valid UTF-8.
    pub fn try_from(bytes: Bytes) -> (r: Result<BytesStr, DecoderError>)
        ensures
            match r {
                Ok(text) => {
                    &&& vstd::utf8::valid_utf8(buffers::shared_bytes(bytes))
                    &&& text@ == buffers::shared_bytes(bytes)
                },
                Err(e) => {
                    &&& !vstd::utf8::valid_utf8(buffers::shared_bytes(bytes))
                    &&& e == DecoderError::InvalidUtf8
                },
            },
    {
        match core::str::from_utf8(buffers::shared_slice(&bytes)) {
            Ok(_) => {},
            Err(_) => {
                return Err(DecoderError::InvalidUtf8);
            },
        }
        Ok(BytesStr { bytes })
    }

    /// The text.
    pub fn as_str(&self) -> (text: &str)
        ensures
            vstd::utf8::encode_utf8(text@) == self@,
    {
        proof {
            use_type_invariant(self);
        }
        match core::str::from_utf8(buffers::shared_slice(&self.bytes)) {
            Ok(text) => text,
            Err(_) => {
                assert(false);
                ""
            },
        }
    }

    /// How many bytes the text has.
    pub fn len(&self) -> (n: usize)
        ensures
            n == self@.len(),
    {
        buffers::shared_slice(&self.bytes).len()
    }
}

/// A header: a pseudo-header or a regular field.
#[derive(Debug)]
pub enum Header {
    Field { name: HeaderName, value: HeaderValue },
    Authority(BytesStr),
    Method(Method),
    Scheme(BytesStr),
    Path(BytesStr),
    Protocol(BytesStr),
    Status(StatusCode),
}

/// What a header says.
#[verifier::ext_equal]
pub enum HeaderView {
    Field { name: Seq<u8>, value: Seq<u8> },
    Authority(Seq<u8>),
    Method(Seq<u8>),
    Scheme(Seq<u8>),
    Path(Seq<u8>),
    Protocol(Seq<u8>),
    Status(nat),
}

impl View for Header {
    type V = HeaderView;

    open spec fn view(&self) -> HeaderView {
        match *self {
            Header::Field { name, value } => HeaderView::Field {
                name: http_types::name_bytes(name),
                value: http_types::value_bytes(value),
            },
            Header::Authority(text) => HeaderView::Authority(text@),
            Header::Method(method) => HeaderView::Method(http_types::method_bytes(method)),
            Header::Scheme(text) => HeaderView::Scheme(text@),
            Header::Path(text) => HeaderView::Path(text@),
            Header::Protocol(text) => HeaderView::Protocol(text@),
            Header::Status(status) => HeaderView::Status(http_types::status_number(status)),
        }
    }
}

/// A header or an error, as what it says.
pub open spec fn outcome(r: Result<Header, DecoderError>) -> Result<HeaderView, DecoderError> {
    match r {
        Ok(header) => Ok(header@),
        Err(e) => Err(e),
    }
}

impl HeaderView {
    /// The size that the header counts for: the lengths of its name and its
    /// value, and thirty-two.
    pub open spec fn size(self) -> nat {
        32 + match self {
            HeaderView::Field { name, value } => name.len() + value.len(),
            HeaderView::Authority(text) => 10 + text.len(),
            HeaderView::Method(text) => 7 + text.len(),
            HeaderView::Scheme(text) => 7 + text.len(),
            HeaderView::Path(text) => 5 + text.len(),
            HeaderView::Protocol(text) => 9 + text.len(),
            HeaderView::Status(_) => 7 + 3,
        }
    }
}

/// The method header with this value.
pub open spec fn method_header(value: Seq<u8>) -> Result<HeaderView, DecoderError> {
    if http_types::is_method(value) {
        Ok(HeaderView::Method(value))
    } else {
        Err(DecoderError::InvalidUtf8)
    }
}

/// The regular field with this name and this value.
pub open spec fn field_header(name: Seq<u8>, value: Seq<u8>) -> Result<HeaderView, DecoderError> {
    if http_types::is_name(name) && http_types::is_value(value) {
        Ok(HeaderView::Field { name, value })
    } else {
        Err(DecoderError::InvalidUtf8)
    }
}

/// A header made of a text, if the value is one.
pub open spec fn with_text(value: Seq<u8>, header: HeaderView) -> Result<HeaderView, DecoderError> {
    if vstd::utf8::valid_utf8(value) {
        Ok(header)
    } else {
        Err(DecoderError::InvalidUtf8)
    }
}

/// The pseudo-header with this name and this value.
pub open spec fn pseudo_header(name: Seq<u8>, value: Seq<u8>) -> Result<HeaderView, DecoderError> {
    if name == vstd::utf8::encode_utf8(":authority"@) {
        with_text(value, HeaderView::Authority(value))
    } else if name == vstd::utf8::encode_utf8(":method"@) {
        method_header(value)
    } else if name == vstd::utf8::encode_utf8(":scheme"@) {
        with_text(value, HeaderView::Scheme(value))
    } else if name == vstd::utf8::encode_utf8(":path"@) {
        with_text(value, HeaderView::Path(value))
    } else if name == vstd::utf8::encode_utf8(":protocol"@) {
        with_text(value, HeaderView::Protocol(value))
    } else if name == vstd::utf8::encode_utf8(":status"@) {
        if http_types::is_status(value) {
            Ok(HeaderView::Status(http_types::status_of(value)))
        } else {
            Err(DecoderError::InvalidUtf8)
        }
    } else {
        Err(DecoderError::InvalidPseudoheader)
    }
}

/// The header with this name and this value.
pub open spec fn header_of(name: Seq<u8>, value: Seq<u8>) -> Result<HeaderView, DecoderError> {
    if name.len() == 0 {
        Err(DecoderError::NeedMore(NeedMore::UnexpectedEndOfStream))
    } else if name[0] == 0x3a {
        pseudo_header(name, value)
    } else {
        field_header(name, value)
    }
}

/// The header with the name at `idx` of the static table and this value.
pub open spec fn static_header(idx: int, value: Seq<u8>) -> Result<HeaderView, DecoderError> {
    if idx == 1 {
        with_text(value, HeaderView::Authority(value))
    } else if idx == 2 || idx == 3 {
        method_header(value)
    } else if idx == 4 || idx == 5 {
        with_text(value, HeaderView::Path(value))
    } else if idx == 6 || idx == 7 {
        with_text(value, HeaderView::Scheme(value))
    } else if 8 <= idx <= 14 {
        if http_types::is_status(value) {
            Ok(HeaderView::Status(http_types::status_of(value)))
        } else {
            Err(DecoderError::InvalidStatusCode)
        }
    } else if 15 <= idx <= 61 {
        field_header(static_table::static_name(idx), value)
    } else {
        Err(DecoderError::InvalidTableIndex)
    }
}

/// The header at `idx` of the static table.
pub open spec fn static_entry(idx: int) -> HeaderView {
    let value = static_table::static_value(idx);
    if idx == 1 {
        HeaderView::Authority(value)
    } else if idx <= 3 {
        HeaderView::Method(value)
    } else if idx <= 5 {
        HeaderView::Path(value)
    } else if idx <= 7 {
        HeaderView::Scheme(value)
    } else if idx <= 14 {
        HeaderView::Status(http_types::status_of(value))
    } else {
        HeaderView::Field { name: static_table::static_name(idx), value }
    }
}

impl Header {
    /// The header with this name and this value.
    pub fn new(name: Bytes, value: Bytes) -> (r: Result<Header, DecoderError>)
        ensures
            outcome(r) == header_of(buffers::shared_bytes(name), buffers::shared_bytes(value)),
    {
        let text = buffers::shared_slice(&name);
        if text.len() == 0 {
            return Err(DecoderError::NeedMore(NeedMore::UnexpectedEndOfStream));
        }
        if text[0] != 0x3a {
            return new_field(name, value);
        }
        if static_table::same_bytes(text, ":authority".as_bytes()) {
            match BytesStr::try_from(value) {
                Ok(text) => Ok(Header::Authority(text)),
                Err(e) => Err(e),
            }
        } else if static_table::same_bytes(text, ":method".as_bytes()) {
            new_method(value)
        } else if static_table::same_bytes(text, ":scheme".as_bytes()) {
            match BytesStr::try_from(value) {
                Ok(text) => Ok(Header::Scheme(text)),
                Err(e) => Err(e),
            }
        } else if static_table::same_bytes(text, ":path".as_bytes()) {
            match BytesStr::try_from(value) {
                Ok(text) => Ok(Header::Path(text)),
                Err(e) => Err(e),
            }
        } else if static_table::same_bytes(text, ":protocol".as_bytes()) {
            match BytesStr::try_from(value) {
                Ok(text) => Ok(Header::Protocol(text)),
                Err(e) => Err(e),
            }
        } else if static_table::same_bytes(text, ":status".as_bytes()) {
            match http_types::status_from_bytes(buffers::shared_slice(&value)) {
                Ok(status) => Ok(Header::Status(status)),
                Err(_) => Err(DecoderError::InvalidUtf8),
            }
        } else {
            Err(DecoderError::InvalidPseudoheader)
        }
    }

    /// The size that the header counts for.
    pub fn len(&self) -> (n: usize)
        requires
            self@.size() <= usize::MAX,
        ensures
            n == self@.size(),
    {
        match self {
            Header::Field { name, value } => 32 + http_types::name_text(name).as_bytes().len()
                + http_types::value_len(value),
            Header::Authority(text) => 32 + 10 + text.len(),
            Header::Method(method) => 32 + 7 + http_types::method_text(method).as_bytes().len(),
            Header::Scheme(text) => 32 + 7 + text.len(),
            Header::Path(text) => 32 + 5 + text.len(),
            Header::Protocol(text) => 32 + 9 + text.len(),
            Header::Status(_) => 32 + 7 + 3,
        }
    }
}

/// The method header with this value.
pub(crate) fn new_method(value: Bytes) -> (r: Result<Header, DecoderError>)
    ensures
        outcome(r) == method_header(buffers::shared_bytes(value)),
{
    match http_types::method_from_bytes(buffers::shared_slice(&value)) {
        Ok(method) => Ok(Header::Method(method)),
        Err(_) => Err(DecoderError::InvalidUtf8),
    }
}

/// The regular field with this name and this value.
pub(crate) fn new_field(name: Bytes, value: Bytes) -> (r: Result<Header, DecoderError>)
    ensures
        outcome(r) == field_header(buffers::shared_bytes(name), buffers::shared_bytes(value)),
{
    let name = match http_types::name_from_lowercase(buffers::shared_slice(&name)) {
        Ok(name) => name,
        Err(_) => {
            return Err(DecoderError::InvalidUtf8);
        },
    };
    match http_types::value_from_shared(value) {
        Ok(value) => Ok(Header::Field { name, value }),
        Err(_) => Err(DecoderError::InvalidUtf8),
    }
}

} // verus!
