use bytes::BytesMut;
use hpack::huffman::peek::build_peek_table;
use hpack::huffman::{
    self, decode_to_slice, encode, validate_header_name, validate_header_value,
};
use hpack::DecoderError;
use http::header::{HeaderName, HeaderValue};

fn encoded(text: &[u8]) -> BytesMut {
    let mut dst = BytesMut::new();
    encode(text, &mut dst);
    dst
}

fn decoded(src: &[u8]) -> Result<BytesMut, DecoderError> {
    huffman::decode(src, &mut BytesMut::new())
}

fn sliced(src: &[u8]) -> Result<Vec<u8>, DecoderError> {
    let mut dst = vec![0xAAu8; src.len() * 2];
    let n = decode_to_slice(src, &mut dst)?;
    Ok(dst[..n].to_vec())
}

#[test]
fn every_byte_comes_back() {
    let all: Vec<u8> = (0..=255u8).collect();
    let code = encoded(&all);
    assert_eq!(&decoded(&code).unwrap()[..], &all[..]);
    assert_eq!(sliced(&code).unwrap(), all);
    for b in 0..=255u8 {
        let code = encoded(&[b]);
        assert_eq!(&decoded(&code).unwrap()[..], &[b]);
        assert_eq!(sliced(&code).unwrap(), [b]);
    }
}

#[test]
fn an_accepted_code_is_the_only_one() {
    for src in [&[0b0011_1111u8][..], &[7], &[255, 160 + 15], &[254, 1]] {
        let text = decoded(src).unwrap();
        assert_eq!(&encoded(&text)[..], src);
    }
}

#[test]
fn the_empty_string() {
    assert_eq!(&encoded(b"")[..], b"");
    assert_eq!(&decoded(b"").unwrap()[..], b"");
    assert_eq!(sliced(b"").unwrap(), b"");
}

#[test]
fn longest_codes() {
    // The line feed, the carriage return and 0x16 have codes of thirty bits.
    assert_eq!(&encoded(&[0x0a])[..], &[0xff, 0xff, 0xff, 0xf3]);
    assert_eq!(&encoded(&[0x0d])[..], &[0xff, 0xff, 0xff, 0xf7]);
    assert_eq!(&encoded(&[0x16])[..], &[0xff, 0xff, 0xff, 0xfb]);
    assert_eq!(sliced(&[0xff, 0xff, 0xff, 0xf7]).unwrap(), [0x0d]);
}

#[test]
fn padding_is_short_and_made_of_ones() {
    let refused = Err(DecoderError::InvalidHuffmanCode);
    // Eleven ones after the letter.
    assert_eq!(decoded(&[0b0011_1111, 0xff]).map(|_| ()), refused);
    assert_eq!(sliced(&[0b0011_1111, 0xff]).map(|_| ()), refused);
    // A zero among them.
    assert_eq!(decoded(&[0b0011_1110]).map(|_| ()), refused);
    // Eight ones and nothing else.
    assert_eq!(decoded(&[0xff]).map(|_| ()), refused);
    assert_eq!(sliced(&[0xff]).map(|_| ()), refused);
    // The end-of-string code.
    assert_eq!(decoded(&[0xff, 0xff, 0xff, 0xff]).map(|_| ()), refused);
    assert_eq!(sliced(&[0xff, 0xff, 0xff, 0xff]).map(|_| ()), refused);
}

#[test]
fn a_code_that_was_cut_short() {
    let refused = Err(DecoderError::InvalidHuffmanCode);
    // Two zeros, and six of the seven bits of a code.
    assert_eq!(sliced(&[0x00, 0x36]).map(|_| ()), refused);
    assert_eq!(decoded(&[0x00, 0x36]).map(|_| ()), refused);
    let mut dst = [0u8; 8];
    assert_eq!(decode_to_slice(&[0x00, 0x36], &mut dst), Err(DecoderError::InvalidHuffmanCode));
    assert_eq!(&dst, b"00\0\0\0\0\0\0");
}

#[test]
fn padding_before_a_tail_of_ones() {
    // Two codes and eight ones. The bits after the first code, which is short, are
    // read in fours; the last three ones are left over and passed over.
    assert_eq!(sliced(&[0x1f, 0xfb, 0xff]).unwrap(), b"a+");
    assert_eq!(sliced(&[0x07, 0xfb, 0xff]).unwrap(), b"0+");
    let refused = Err(DecoderError::InvalidHuffmanCode);
    assert_eq!(decoded(&[0x1f, 0xfb, 0xff]).map(|_| ()), refused);
    assert_eq!(decoded(&[0x07, 0xfb, 0xff]).map(|_| ()), refused);
    // Sixteen ones are too many.
    assert_eq!(sliced(&[0x1f, 0xfb, 0xff, 0xff]).map(|_| ()), refused);
}

#[test]
fn both_decoders_agree() {
    for a in 0..=255u8 {
        for b in 0..=255u8 {
            for src in [&[a, b][..], &[0x07, a, b]] {
                let text = match sliced(src) {
                    Ok(text) => text,
                    Err(e) => {
                        assert_eq!(decoded(src).map(|_| ()), Err(e));
                        continue;
                    }
                };
                // Either both accept, or there is one more byte of ones.
                let mut wire = encoded(&text).to_vec();
                if wire != src {
                    wire.push(0xff);
                    assert!(decoded(src).is_err());
                }
                assert_eq!(wire, src);
            }
        }
    }
}

#[test]
fn what_was_in_the_buffer_comes_out_too() {
    let mut buf = BytesMut::from(&b"ab"[..]);
    let taken = huffman::decode(&[7], &mut buf).unwrap();
    assert_eq!(&taken[..], b"ab0");
    assert!(buf.is_empty());
    let mut buf = BytesMut::from(&b"ab"[..]);
    assert!(huffman::decode(&[0b0011_1110], &mut buf).is_err());
    assert_eq!(&buf[..], b"abo");
}

#[test]
fn encoding_appends() {
    let mut dst = BytesMut::from(&b"x"[..]);
    encode(b"0", &mut dst);
    encode(b"o", &mut dst);
    assert_eq!(&dst[..], &[b'x', 7, 0b0011_1111]);
}

#[test]
fn the_rest_of_a_slice_is_left_alone() {
    let mut dst = [9u8; 6];
    assert_eq!(decode_to_slice(&[7], &mut dst), Ok(1));
    assert_eq!(dst, [b'0', 9, 9, 9, 9, 9]);
}

#[test]
fn at_most_twice_as_long() {
    let text = vec![b'a'; 1000];
    let code = encoded(&text);
    assert_eq!(code.len(), 625);
    assert!(text.len() <= 2 * code.len());
    let text = vec![0x0au8; 100];
    assert_eq!(encoded(&text).len(), 375);
}

#[test]
fn the_look_ahead_table() {
    let table = build_peek_table();
    // '0' is 00000, 'A' is 100001, '&' is 11111000.
    assert_eq!(table[0], (b'0', 5));
    assert_eq!(table[31], (b'0', 5));
    assert_eq!(table[32], (b'1', 5));
    assert_eq!(table[0b10_0001_0000], (b'A', 6));
    assert_eq!(table[0b11_1110_0011], (b'&', 8));
    assert_eq!(table[0b11_1111_1000], (b'!', 10));
    assert_eq!(table[0b11_1111_1101], (0, 0));
    assert_eq!(table[1023], (0, 0));
}

#[test]
fn value_bytes() {
    assert!(validate_header_value(b""));
    assert!(validate_header_value(b"a value\twith a tab and \xff, long enough"));
    assert!(!validate_header_value(b"a\x7f"));
    assert!(!validate_header_value(b"more than sixteen bytes\n"));
    for b in 0..=255u8 {
        let data = [b; 17];
        assert_eq!(validate_header_value(&data), HeaderValue::from_bytes(&data).is_ok());
        assert_eq!(validate_header_value(&data[..3]), b == 9 || (b >= 32 && b != 127));
    }
}

#[test]
fn name_bytes() {
    assert!(validate_header_name(b"content-type"));
    assert!(validate_header_name(b"a-name-of-more-than-sixteen-bytes"));
    assert!(!validate_header_name(b"Content-Type"));
    assert!(!validate_header_name(b"a-name-of-more-than-sixteen-bytes "));
    assert!(!validate_header_name(b"a\x7f"));
    for b in 0..=255u8 {
        let data = [b; 17];
        let quick = b >= 0x21 && b != 0x7f && !(0x41..=0x5a).contains(&b);
        assert_eq!(validate_header_name(&data), quick);
        assert!(quick || HeaderName::from_lowercase(&data).is_err());
    }
}
