//! The types of the `http` crate that headers are made of.
//!
//! The functions here do nothing but call the outside function that they name;
//! their contracts are taken on trust.
use bytes::Bytes;
use http::header::{HeaderName, HeaderValue, InvalidHeaderName, InvalidHeaderValue};
use http::method::InvalidMethod;
use http::status::InvalidStatusCode;
use http::{Method, StatusCode};
use vstd::prelude::*;
use crate::buffers;

verus! {

/// The header name `http::header::HeaderName`.
#[verifier::external_type_specification]
#[verifier::external_body]
pub struct ExHeaderName(http::header::HeaderName);

/// The header value `http::header::HeaderValue`.
#[verifier::external_type_specification]
#[verifier::external_body]
pub struct ExHeaderValue(http::header::HeaderValue);

/// The request method `http::Method`.
#[verifier::external_type_specification]
#[verifier::external_body]
pub struct ExMethod(http::Method);

/// The status code `http::StatusCode`.
#[verifier::external_type_specification]
#[verifier::external_body]
pub struct ExStatusCode(http::StatusCode);

/// The error `http::header::InvalidHeaderName`.
#[verifier::external_type_specification]
#[verifier::external_body]
pub struct ExInvalidHeaderName(http::header::InvalidHeaderName);

/// The error `http::header::InvalidHeaderValue`.
#[verifier::external_type_specification]
#[verifier::external_body]
pub struct ExInvalidHeaderValue(http::header::InvalidHeaderValue);

/// The error `http::method::InvalidMethod`.
#[verifier::external_type_specification]
#[verifier::external_body]
pub struct ExInvalidMethod(http::method::InvalidMethod);

/// The error `http::status::InvalidStatusCode`.
#[verifier::external_type_specification]
#[verifier::external_body]
pub struct ExInvalidStatusCode(http::status::InvalidStatusCode);

/// The error `std::str::Utf8Error`.
#[verifier::external_type_specification]
#[verifier::external_body]
pub struct ExUtf8Error(core::str::Utf8Error);

/// The bytes of a header name.
pub uninterp spec fn name_bytes(name: HeaderName) -> Seq<u8>;

/// The bytes of a header value.
pub uninterp spec fn value_bytes(value: HeaderValue) -> Seq<u8>;

/// The bytes of a request method.
pub uninterp spec fn method_bytes(method: Method) -> Seq<u8>;

/// The number of a status code.
pub uninterp spec fn status_number(status: StatusCode) -> nat;

/// A digit or one of the marks that a method and a header name may hold.
pub open spec fn is_mark_or_digit(b: u8) -> bool {
    ||| b == 0x21
    ||| 0x23 <= b <= 0x27
    ||| b == 0x2a
    ||| b == 0x2b
    ||| b == 0x2d
    ||| b == 0x2e
    ||| 0x30 <= b <= 0x39
    ||| 0x5e <= b <= 0x60
    ||| b == 0x7c
    ||| b == 0x7e
}

/// A byte that a lower-case header name may hold: a letter, a digit, or one of
/// the marks, among them the quotation mark.
pub open spec fn is_name_byte(b: u8) -> bool {
    is_mark_or_digit(b) || b == 0x22 || 0x61 <= b <= 0x7a
}

/// A lower-case header name: not empty and not longer than 65535 bytes.
pub open spec fn is_name(bytes: Seq<u8>) -> bool {
    &&& 0 < bytes.len() <= 0xffff
    &&& forall|i: int| 0 <= i < bytes.len() ==> is_name_byte(#[trigger] bytes[i])
}

/// A byte that a header value may hold: a tab, or anything from the space on but
/// for the delete character.
pub open spec fn is_value_byte(b: u8) -> bool {
    b == 0x09 || (b >= 0x20 && b != 0x7f)
}

/// A header value.
pub open spec fn is_value(bytes: Seq<u8>) -> bool {
    forall|i: int| 0 <= i < bytes.len() ==> is_value_byte(#[trigger] bytes[i])
}

/// A byte that a method may hold: a letter, a digit, or one of the marks.
pub open spec fn is_method_byte(b: u8) -> bool {
    is_mark_or_digit(b) || 0x41 <= b <= 0x5a || 0x61 <= b <= 0x7a
}

/// A request method: not empty.
pub open spec fn is_method(bytes: Seq<u8>) -> bool {
    &&& 0 < bytes.len()
    &&& forall|i: int| 0 <= i < bytes.len() ==> is_method_byte(#[trigger] bytes[i])
}

/// A status code: three digits, the first of them not zero.
pub open spec fn is_status(bytes: Seq<u8>) -> bool {
    &&& bytes.len() == 3
    &&& 0x31 <= bytes[0] <= 0x39
    &&& 0x30 <= bytes[1] <= 0x39
    &&& 0x30 <= bytes[2] <= 0x39
}

/// The number that three digits write down.
pub open spec fn status_of(bytes: Seq<u8>) -> nat {
    ((bytes[0] - 0x30) * 100 + (bytes[1] - 0x30) * 10 + (bytes[2] - 0x30)) as nat
}

/// `HeaderName::from_lowercase`: takes lower-case names and nothing else, and
/// keeps their bytes.
#[verifier::external_body]
pub(crate) fn name_from_lowercase(bytes: &[u8]) -> (r: Result<HeaderName, InvalidHeaderName>)
    ensures
        r is Ok <==> is_name(bytes@),
        r matches Ok(name) ==> name_bytes(name) == bytes@,
{
    HeaderName::from_lowercase(bytes)
}

/// `HeaderName::from_static`: a name with the bytes of the text, the prebuilt
/// constant where there is one.
#[verifier::external_body]
pub(crate) fn name_from_static(text: &'static str) -> (name: HeaderName)
    requires
        is_name(vstd::utf8::encode_utf8(text@)),
    ensures
        name_bytes(name) == vstd::utf8::encode_utf8(text@),
{
    HeaderName::from_static(text)
}

/// `HeaderName::as_str`: the text has the bytes of the name.
#[verifier::external_body]
pub(crate) fn name_text(name: &HeaderName) -> (text: &str)
    ensures
        vstd::utf8::encode_utf8(text@) == name_bytes(*name),
{
    name.as_str()
}

/// `HeaderValue::from_maybe_shared` on `Bytes`: takes header values and nothing
/// else, and keeps their bytes.
#[verifier::external_body]
pub(crate) fn value_from_shared(bytes: Bytes) -> (r: Result<HeaderValue, InvalidHeaderValue>)
    ensures
        r is Ok <==> is_value(buffers::shared_bytes(bytes)),
        r matches Ok(value) ==> value_bytes(value) == buffers::shared_bytes(bytes),
{
    HeaderValue::from_maybe_shared(bytes)
}

/// `HeaderValue::from_static`: a value with the bytes of the text, which must
/// be ASCII.
#[verifier::external_body]
pub(crate) fn value_from_static(text: &'static str) -> (value: HeaderValue)
    requires
        is_value(vstd::utf8::encode_utf8(text@)),
        text.is_ascii(),
    ensures
        value_bytes(value) == vstd::utf8::encode_utf8(text@),
{
    HeaderValue::from_static(text)
}

/// `HeaderValue::len`: how many bytes the value has.
#[verifier::external_body]
pub(crate) fn value_len(value: &HeaderValue) -> (n: usize)
    ensures
        n == value_bytes(*value).len(),
{
    value.len()
}

/// `Method::from_bytes`: takes methods and nothing else, and keeps their bytes.
#[verifier::external_body]
pub(crate) fn method_from_bytes(bytes: &[u8]) -> (r: Result<Method, InvalidMethod>)
    ensures
        r is Ok <==> is_method(bytes@),
        r matches Ok(method) ==> method_bytes(method) == bytes@,
{
    Method::from_bytes(bytes)
}

/// `Method::as_str`: the text has the bytes of the method.
#[verifier::external_body]
pub(crate) fn method_text(method: &Method) -> (text: &str)
    ensures
        vstd::utf8::encode_utf8(text@) == method_bytes(*method),
{
    method.as_str()
}

/// `Method::GET`: its bytes are `GET`.
#[verifier::external_body]
pub(crate) fn method_get() -> (method: Method)
    ensures
        method_bytes(method) == vstd::utf8::encode_utf8("GET"@),
{
    Method::GET
}

/// `Method::POST`: its bytes are `POST`.
#[verifier::external_body]
pub(crate) fn method_post() -> (method: Method)
    ensures
        method_bytes(method) == vstd::utf8::encode_utf8("POST"@),
{
    Method::POST
}

/// `StatusCode::from_bytes`: takes three digits from 100 on and nothing else.
#[verifier::external_body]
pub(crate) fn status_from_bytes(bytes: &[u8]) -> (r: Result<StatusCode, InvalidStatusCode>)
    ensures
        r is Ok <==> is_status(bytes@),
        r matches Ok(status) ==> status_number(status) == status_of(bytes@),
{
    StatusCode::from_bytes(bytes)
}

/// `StatusCode::from_u16`: takes the numbers from 100 to 999.
#[verifier::external_body]
pub(crate) fn status_from_u16(number: u16) -> (r: Result<StatusCode, InvalidStatusCode>)
    ensures
        r is Ok <==> 100 <= number <= 999,
        r matches Ok(status) ==> status_number(status) == number,
{
    StatusCode::from_u16(number)
}

/// `std::str::from_utf8`: takes valid UTF-8 and nothing else, and the text has
/// the same bytes.
pub assume_specification<'a>[ core::str::from_utf8 ](v: &'a [u8]) -> (r: Result<
    &'a str,
    core::str::Utf8Error,
>)
    ensures
        r is Ok <==> vstd::utf8::valid_utf8(v@),
        r matches Ok(text) ==> vstd::utf8::encode_utf8(text@) == v@,
;

} // verus!
