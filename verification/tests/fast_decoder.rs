use bytes::BytesMut;
use hpack::dyn_table::DynTable;
use hpack::integer::decode_int_fast;
use hpack::materialize::materialize_static_full;
use hpack::static_table::{match_known_header, STATIC_TABLE};
use hpack::{FastDecoder, Header};
use http::header;
use http::Method;
use std::io::Cursor;

#[test]
fn test_decode_int_fast_prefix() {
    let data = [0x05];
    let mut pos = 0;
    assert_eq!(decode_int_fast(&data, &mut pos, 7).unwrap(), 5);
    assert_eq!(pos, 1);
}

#[test]
fn test_decode_int_fast_multi_byte() {
    let data = [0x7F, 0x00];
    let mut pos = 0;
    assert_eq!(decode_int_fast(&data, &mut pos, 7).unwrap(), 127);
    assert_eq!(pos, 2);
}

#[test]
fn test_dyn_table_insert_and_get() {
    let mut table = DynTable::new(4096);
    table.insert_raw(b"content-type", b"application/json");
    assert_eq!(table.len(), 1);
    let entry = table.get(0).unwrap();
    assert_eq!(entry.name_len, 12);
    assert_eq!(entry.value_len, 16);
}

#[test]
fn test_static_table_entries() {
    assert_eq!(STATIC_TABLE[1].0.as_bytes(), b":authority");
    assert_eq!(STATIC_TABLE[2].0.as_bytes(), b":method");
    assert_eq!(STATIC_TABLE[2].1.as_bytes(), b"GET");
    assert_eq!(STATIC_TABLE[4].0.as_bytes(), b":path");
    assert_eq!(STATIC_TABLE[4].1.as_bytes(), b"/");
    assert_eq!(STATIC_TABLE[61].0.as_bytes(), b"www-authenticate");
}

#[test]
fn test_fast_decoder_indexed_static() {
    let mut decoder = FastDecoder::new(4096);
    let mut buf = BytesMut::from(&[0x82u8][..]);
    let mut headers = vec![];
    decoder
        .decode(&mut Cursor::new(&mut buf), |h| headers.push(h))
        .unwrap();
    assert_eq!(headers.len(), 1);
    match &headers[0] {
        Header::Method(m) => assert_eq!(*m, Method::GET),
        other => panic!("Expected Method, got {:?}", other),
    }
}

#[test]
fn test_fast_decoder_literal_with_indexing() {
    let mut decoder = FastDecoder::new(4096);
    let mut buf = BytesMut::new();
    buf.extend_from_slice(&[0x40]);
    buf.extend_from_slice(&[0x03]);
    buf.extend_from_slice(b"foo");
    buf.extend_from_slice(&[0x03]);
    buf.extend_from_slice(b"bar");

    let mut headers = vec![];
    decoder
        .decode(&mut Cursor::new(&mut buf), |h| headers.push(h))
        .unwrap();
    assert_eq!(headers.len(), 1);
    match &headers[0] {
        Header::Field { name, value } => {
            assert_eq!(name.as_str(), "foo");
            assert_eq!(value.as_bytes(), b"bar");
        }
        other => panic!("Expected Field, got {:?}", other),
    }
    assert_eq!(decoder.dyn_table_len(), 1);
}

#[test]
fn test_fast_decoder_literal_indexed_name() {
    let mut decoder = FastDecoder::new(4096);
    let mut buf = BytesMut::new();
    buf.extend_from_slice(&[0x5F]); // Literal with indexing, name index 31 (content-type)
    buf.extend_from_slice(&[0x0A]);
    buf.extend_from_slice(b"text/plain");

    let mut headers = vec![];
    decoder
        .decode(&mut Cursor::new(&mut buf), |h| headers.push(h))
        .unwrap();
    assert_eq!(headers.len(), 1);
    match &headers[0] {
        Header::Field { name, value } => {
            assert_eq!(name, &header::CONTENT_TYPE);
            assert_eq!(value.as_bytes(), b"text/plain");
        }
        other => panic!("Expected Field, got {:?}", other),
    }
}

#[test]
fn test_fast_decoder_multiple_headers() {
    let mut decoder = FastDecoder::new(4096);
    let mut buf = BytesMut::new();
    buf.extend_from_slice(&[0x82]); // :method GET
    buf.extend_from_slice(&[0x84]); // :path /
    buf.extend_from_slice(&[0x86]); // :scheme http

    let mut headers = vec![];
    decoder
        .decode(&mut Cursor::new(&mut buf), |h| headers.push(h))
        .unwrap();
    assert_eq!(headers.len(), 3);
    assert!(matches!(&headers[0], Header::Method(m) if *m == Method::GET));
    assert!(matches!(&headers[1], Header::Path(p) if p.as_str() == "/"));
    assert!(matches!(&headers[2], Header::Scheme(s) if s.as_str() == "http"));
}

#[test]
fn test_materialize_static_full() {
    // Verify all static entries can be materialized
    for idx in 1..=61u8 {
        let header = materialize_static_full(idx);
        // Just verify it doesn't panic
        let _ = header.len();
    }
}

#[test]
fn test_match_known_header() {
    assert_eq!(match_known_header(b"content-type"), Some(header::CONTENT_TYPE));
    assert_eq!(match_known_header(b"host"), Some(header::HOST));
    assert_eq!(match_known_header(b"user-agent"), Some(header::USER_AGENT));
    assert_eq!(match_known_header(b"accept-encoding"), Some(header::ACCEPT_ENCODING));
    assert_eq!(match_known_header(b"x-custom"), None);
    assert_eq!(match_known_header(b""), None);
}
