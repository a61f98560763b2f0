use bytes::BytesMut;
use hpack::huffman::{self, decode_to_slice, encode};
use hpack::DecoderError;

fn decode(src: &[u8]) -> Result<BytesMut, DecoderError> {
    let mut buf = BytesMut::new();
    huffman::decode(src, &mut buf)
}

#[test]
fn decode_single_byte() {
    assert_eq!("o", decode(&[0b00111111]).unwrap());
    assert_eq!("0", decode(&[7]).unwrap());
    assert_eq!("A", decode(&[(0x21 << 2) + 3]).unwrap());
}

#[test]
fn single_char_multi_byte() {
    assert_eq!("#", decode(&[255, 160 + 15]).unwrap());
    assert_eq!("$", decode(&[255, 200 + 7]).unwrap());
    assert_eq!("\x0a", decode(&[255, 255, 255, 240 + 3]).unwrap());
}

#[test]
fn multi_char() {
    assert_eq!("!0", decode(&[254, 1]).unwrap());
    assert_eq!(" !", decode(&[0b01010011, 0b11111000]).unwrap());
}

#[test]
fn encode_single_byte() {
    let mut dst = BytesMut::with_capacity(1);

    encode(b"o", &mut dst);
    assert_eq!(&dst[..], &[0b00111111]);

    dst.clear();
    encode(b"0", &mut dst);
    assert_eq!(&dst[..], &[7]);

    dst.clear();
    encode(b"A", &mut dst);
    assert_eq!(&dst[..], &[(0x21 << 2) + 3]);
}

#[test]
fn encode_decode_str() {
    const DATA: &[&str] = &[
        "hello world",
        ":method",
        ":scheme",
        ":authority",
        "yahoo.co.jp",
        "GET",
        "http",
        ":path",
        "/images/top/sp2/cmn/logo-ns-130528.png",
        "example.com",
        "hpack-test",
        "xxxxxxx1",
        "Mozilla/5.0 (Macintosh; Intel Mac OS X 10.8; rv:16.0) Gecko/20100101 Firefox/16.0",
        "accept",
        "Accept",
        "text/html,application/xhtml+xml,application/xml;q=0.9,*/*;q=0.8",
        "cookie",
        "B=76j09a189a6h4&b=3&s=0b",
        "TE",
        "Lorem ipsum dolor sit amet, consectetur adipiscing elit. Morbi non bibendum libero. \
         Etiam ultrices lorem ut.",
    ];

    for s in DATA {
        let mut dst = BytesMut::with_capacity(s.len());

        encode(s.as_bytes(), &mut dst);

        let decoded = decode(&dst).unwrap();

        assert_eq!(&decoded[..], s.as_bytes());
    }
}

#[test]
fn encode_decode_u8() {
    const DATA: &[&[u8]] = &[b"\0", b"\0\0\0", b"\0\x01\x02\x03\x04\x05", b"\xFF\xF8"];

    for s in DATA {
        let mut dst = BytesMut::with_capacity(s.len());

        encode(s, &mut dst);

        let decoded = decode(&dst).unwrap();

        assert_eq!(&decoded[..], &s[..]);
    }
}

fn roundtrip(input: &[u8]) {
    // encode using encode()
    let mut encoded = BytesMut::new();
    encode(input, &mut encoded);
    let encoded_bytes = encoded.freeze();

    // decode using decode_to_slice
    let mut dst = vec![0u8; encoded_bytes.len() * 2 + 4];
    let n = decode_to_slice(&encoded_bytes, &mut dst).unwrap_or_else(|e| {
        panic!(
            "decode_to_slice failed for input {:?} (encoded {:?}): {:?}",
            input,
            &encoded_bytes[..],
            e
        )
    });
    assert_eq!(
        &dst[..n],
        input,
        "roundtrip mismatch for input {:?} (encoded {:?})",
        input,
        &encoded_bytes[..]
    );
}

#[test]
fn test_roundtrip_ascii() {
    roundtrip(b"application/json");
    roundtrip(b"GET");
    roundtrip(b"https");
    roundtrip(b"/index.html");
    roundtrip(b"www.example.com");
    roundtrip(b"no-cache");
}

#[test]
fn test_roundtrip_all_bytes() {
    for b in 0u8..=127 {
        roundtrip(&[b]);
    }
    for b in 0u8..=127 {
        roundtrip(&[b, b, b]);
    }
}

#[test]
fn test_roundtrip_long() {
    let long_str: Vec<u8> = b"content-type: application/json; charset=utf-8".to_vec();
    roundtrip(&long_str);
}

#[test]
fn test_roundtrip_plus_sign() {
    // '+' has an 11-bit Huffman code (> PEEK_BITS=10), triggering the
    // scalar fallback.  The leftover bits after fast-path decoding must
    // be properly carried into the scalar path - not silently dropped.
    roundtrip(b"+");
    roundtrip(b"+xml");
    roundtrip(b"xhtml+xml");
    roundtrip(b"application/xhtml+xml");
    roundtrip(b"text/html,application/xhtml+xml,application/xml;q=0.9,*/*;q=0.8");
}

#[test]
fn test_roundtrip_mixed_bit_lengths() {
    // Mix of 5-bit ('t'), 7-bit ('x') and 11-bit ('+') codes exercises
    // all transitions between fast-path and scalar fallback.
    roundtrip(b"text/html,application/xhtml");
    roundtrip(b"text/html,application/xhtml+");
    roundtrip(b"text/html,application/xhtml+xml");
    roundtrip(b"text/html,application/xhtml+xml,application/xml");
}

#[test]
fn test_roundtrip_cookie() {
    // This cookie string contains chars with >10-bit Huffman codes
    // (#=12bits, $=13bits, '=11bits, +=11bits, ]=13bits, ^=14bits)
    // which trigger the scalar fallback path. The last character 'y'
    // must not be dropped.
    roundtrip(b"anj=Kfu=8fG68%Cxrx)0s]#%2L_'x%SEV/hnJPh4FQV_eKj?9AMF4:V)4hY/82QjU'-Rw1Ra^uI$+VZ; path=/; expires=Fri, 01-Feb-2013 13:29:47 GMT; domain=.adnxs.com; HttpOnly");
    roundtrip(b"HttpOnly");
    roundtrip(b"domain=.adnxs.com; HttpOnly");
}
