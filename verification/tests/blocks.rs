use bytes::BytesMut;
use hpack::huffman::encode;
use hpack::{DecoderError, FastDecoder, Header, HpackDecode, NeedMore};
use std::io::Cursor;

/// Decodes a block. Returns what the headers say, the result, and what is left of
/// the input.
fn run(
    decoder: &mut FastDecoder,
    block: &[u8],
) -> (Vec<String>, Result<(), DecoderError>, Vec<u8>) {
    let mut buf = BytesMut::from(block);
    let mut headers = vec![];
    let mut src = Cursor::new(&mut buf);
    let result = decoder.decode(&mut src, |h| headers.push(h));
    assert_eq!(src.position(), 0);
    (headers.iter().map(say).collect(), result, buf.to_vec())
}

fn say(header: &Header) -> String {
    match header {
        Header::Field { name, value } => {
            format!("{}: {}", name.as_str(), String::from_utf8_lossy(value.as_bytes()))
        }
        Header::Authority(text) => format!(":authority: {}", text.as_str()),
        Header::Method(method) => format!(":method: {}", method.as_str()),
        Header::Scheme(text) => format!(":scheme: {}", text.as_str()),
        Header::Path(text) => format!(":path: {}", text.as_str()),
        Header::Protocol(text) => format!(":protocol: {}", text.as_str()),
        Header::Status(status) => format!(":status: {}", status.as_str()),
    }
}

/// A string as it is, shorter than 127 bytes.
fn plain(text: &[u8]) -> Vec<u8> {
    let mut wire = vec![text.len() as u8];
    wire.extend_from_slice(text);
    wire
}

/// A Huffman-coded string, shorter than 127 bytes.
fn coded(text: &[u8]) -> Vec<u8> {
    let mut body = BytesMut::new();
    encode(text, &mut body);
    let mut wire = vec![0x80 | body.len() as u8];
    wire.extend_from_slice(&body);
    wire
}

fn literal(first: u8, strings: &[Vec<u8>]) -> Vec<u8> {
    let mut wire = vec![first];
    for string in strings {
        wire.extend_from_slice(string);
    }
    wire
}

/// Decodes a block that must be refused; the input then stays as it was, and
/// nothing is delivered.
fn refused(block: &[u8]) -> DecoderError {
    let (headers, result, left) = run(&mut FastDecoder::new(4096), block);
    assert!(headers.is_empty());
    assert_eq!(left, block);
    result.unwrap_err()
}

#[test]
fn an_empty_block() {
    let mut decoder = FastDecoder::default();
    assert_eq!(run(&mut decoder, &[]), (vec![], Ok(()), vec![]));
    assert_eq!(decoder.dyn_table_max(), 4096);
}

#[test]
fn every_static_entry_by_its_index() {
    for idx in 1..=61u8 {
        let (headers, result, left) = run(&mut FastDecoder::new(0), &[0x80 | idx]);
        assert_eq!(result, Ok(()));
        assert_eq!(headers.len(), 1);
        assert!(left.is_empty());
    }
    assert_eq!(run(&mut FastDecoder::new(0), &[0x90]).0, ["accept-encoding: gzip, deflate"]);
    assert_eq!(run(&mut FastDecoder::new(0), &[0x8d]).0, [":status: 404"]);
}

#[test]
fn a_field_is_entered_and_referred_to() {
    let mut decoder = FastDecoder::new(4096);
    let first = literal(0x40, &[plain(b"foo"), coded(b"bar+baz")]);
    assert_eq!(run(&mut decoder, &first), (vec!["foo: bar+baz".to_string()], Ok(()), vec![]));
    assert_eq!((decoder.dyn_table_len(), decoder.dyn_table_size()), (1, 42));
    assert_eq!(run(&mut decoder, &[0xbe]), (vec!["foo: bar+baz".to_string()], Ok(()), vec![]));
    // Its name alone, with another value, entered as well.
    let third = literal(0x7e, &[plain(b"qux")]);
    assert_eq!(run(&mut decoder, &third).0, ["foo: qux"]);
    assert_eq!(run(&mut decoder, &[0xbe, 0xbf]).0, ["foo: qux", "foo: bar+baz"]);
}

#[test]
fn a_field_is_not_entered() {
    let mut decoder = FastDecoder::new(4096);
    let block = literal(0x00, &[coded(b"foo"), plain(b"bar")]);
    assert_eq!(run(&mut decoder, &block).0, ["foo: bar"]);
    let never = literal(0x10, &[plain(b"foo"), plain(b"bar")]);
    assert_eq!(run(&mut decoder, &never).0, ["foo: bar"]);
    let named = literal(0x0f, &[vec![0x10], plain(b"text/html")]);
    assert_eq!(run(&mut decoder, &named).0, ["content-type: text/html"]);
    assert_eq!(decoder.dyn_table_len(), 0);
}

#[test]
fn a_static_name_is_entered() {
    let mut decoder = FastDecoder::new(4096);
    assert_eq!(run(&mut decoder, &literal(0x41, &[plain(b"a.b")])).0, [":authority: a.b"]);
    assert_eq!(run(&mut decoder, &[0xbe]).0, [":authority: a.b"]);
    assert_eq!(decoder.dyn_table_size(), 10 + 3 + 32);
}

#[test]
fn headers_come_in_order() {
    let mut block = vec![0x82, 0x86, 0x84];
    block.extend(literal(0x41, &[coded(b"www.example.com")]));
    block.extend(literal(0x40, &[coded(b"x-a"), coded(b"1")]));
    block.push(0xbf);
    let (headers, result, _) = run(&mut FastDecoder::new(4096), &block);
    assert_eq!(result, Ok(()));
    assert_eq!(
        headers,
        [
            ":method: GET",
            ":scheme: http",
            ":path: /",
            ":authority: www.example.com",
            "x-a: 1",
            ":authority: www.example.com",
        ]
    );
}

#[test]
fn a_block_that_was_cut_short() {
    let mut block = vec![0x82];
    block.extend(literal(0x40, &[coded(b"custom-key"), plain(b"custom-value")]));
    block.extend(literal(0x5f, &[coded(b"text/html")]));
    for n in 0..block.len() {
        let (headers, result, left) = run(&mut FastDecoder::new(4096), &block[..n]);
        match result {
            Ok(()) => assert!(left.is_empty()),
            Err(e) => {
                assert!(matches!(e, DecoderError::NeedMore(_)));
                assert!(headers.is_empty());
                assert_eq!(left, &block[..n]);
            }
        }
    }
}

#[test]
fn what_follows_does_not_matter() {
    let mut first = literal(0x40, &[plain(b"a"), coded(b"1")]);
    first.push(0xbe);
    let second = literal(0x7e, &[plain(b"2")]);
    let mut apart = FastDecoder::new(4096);
    let mut headers = run(&mut apart, &first).0;
    headers.extend(run(&mut apart, &second).0);
    let mut joined = FastDecoder::new(4096);
    let mut block = first.clone();
    block.extend_from_slice(&second);
    assert_eq!(run(&mut joined, &block).0, headers);
    assert_eq!(headers, ["a: 1", "a: 1", "a: 2"]);
    assert_eq!(joined.dyn_table_size(), apart.dyn_table_size());
    // An error stands, too, whatever follows.
    first.push(0x80);
    let error = refused(&first);
    first.push(0x82);
    assert_eq!(refused(&first), error);
}

#[test]
fn table_indices() {
    assert_eq!(refused(&[0x80]), DecoderError::InvalidTableIndex);
    assert_eq!(refused(&[0xbe]), DecoderError::InvalidTableIndex);
    assert_eq!(refused(&[0x7e, 0x00]), DecoderError::InvalidTableIndex);
    assert_eq!(refused(&[0x0f, 0x2f, 0x00]), DecoderError::InvalidTableIndex);
}

#[test]
fn ends_of_input() {
    let needs = |need| DecoderError::NeedMore(need);
    assert_eq!(refused(&[0xff]), needs(NeedMore::IntegerUnderflow));
    assert_eq!(refused(&[0x40]), needs(NeedMore::UnexpectedEndOfStream));
    assert_eq!(refused(&[0x41]), needs(NeedMore::UnexpectedEndOfStream));
    assert_eq!(refused(&[0x40, 0x7f]), needs(NeedMore::IntegerUnderflow));
    assert_eq!(refused(&[0x40, 0x05, b'a']), needs(NeedMore::StringUnderflow));
    // An empty name.
    assert_eq!(refused(&[0x40, 0x00, 0x00]), needs(NeedMore::UnexpectedEndOfStream));
}

#[test]
fn integers_that_are_too_long() {
    assert_eq!(refused(&[0xff, 0x80, 0x80, 0x80, 0x80, 0x01]), DecoderError::IntegerOverflow);
}

#[test]
fn strings_that_are_no_code() {
    let block = [0x40, 0x84, 0xff, 0xff, 0xff, 0xff, 0x00];
    assert_eq!(refused(&block), DecoderError::InvalidHuffmanCode);
    // A value whose last code was cut short.
    let block = [0x41, 0x82, 0x00, 0x36];
    assert_eq!(refused(&block), DecoderError::InvalidHuffmanCode);
}

#[test]
fn headers_that_cannot_be_made() {
    let upper = literal(0x00, &[plain(b"Foo"), plain(b"bar")]);
    assert_eq!(refused(&upper), DecoderError::InvalidUtf8);
    let control = literal(0x00, &[plain(b"foo"), plain(b"\x01")]);
    assert_eq!(refused(&control), DecoderError::InvalidUtf8);
    assert_eq!(refused(&literal(0x41, &[plain(b"\xff")])), DecoderError::InvalidUtf8);
    assert_eq!(refused(&literal(0x42, &[plain(b"G T")])), DecoderError::InvalidUtf8);
    assert_eq!(refused(&literal(0x48, &[plain(b"abc")])), DecoderError::InvalidStatusCode);
    let pseudo = literal(0x00, &[plain(b":foo"), plain(b"bar")]);
    assert_eq!(refused(&pseudo), DecoderError::InvalidPseudoheader);
}

#[test]
fn headers_before_one_that_cannot_be_made() {
    let mut decoder = FastDecoder::new(4096);
    let mut block = vec![0x82];
    block.extend(literal(0x40, &[plain(b"x"), plain(b"1")]));
    block.extend(literal(0x40, &[plain(b"X"), plain(b"2")]));
    block.push(0x84);
    let (headers, result, left) = run(&mut decoder, &block);
    assert_eq!(headers, [":method: GET", "x: 1"]);
    assert_eq!(result, Err(DecoderError::InvalidUtf8));
    assert_eq!(left, block);
    // Both fields were entered.
    assert_eq!(decoder.dyn_table_len(), 2);
}

#[test]
fn an_unreadable_block_still_changes_the_table() {
    let mut decoder = FastDecoder::new(4096);
    let mut block = literal(0x40, &[plain(b"x"), plain(b"1")]);
    block.push(0x80);
    let (headers, result, _) = run(&mut decoder, &block);
    assert!(headers.is_empty());
    assert_eq!(result, Err(DecoderError::InvalidTableIndex));
    assert_eq!(decoder.dyn_table_len(), 1);
}

#[test]
fn size_updates() {
    let mut decoder = FastDecoder::new(4096);
    run(&mut decoder, &literal(0x40, &[plain(b"x"), plain(b"1")])).1.unwrap();
    // To 33 and to 34: the first drops the entry.
    let (headers, result, _) = run(&mut decoder, &[0x3f, 0x02, 0x3f, 0x03, 0x82]);
    assert_eq!((headers.len(), result), (1, Ok(())));
    assert_eq!((decoder.dyn_table_len(), decoder.dyn_table_max()), (0, 34));
}

#[test]
fn size_updates_that_are_refused() {
    assert_eq!(refused(&[0x82, 0x20]), DecoderError::InvalidMaxDynamicSize);
    // 4097
    assert_eq!(refused(&[0x3f, 0xe2, 0x1f]), DecoderError::InvalidMaxDynamicSize);
    let (_, result, _) = run(&mut FastDecoder::new(4096), &[0x3f, 0xe1, 0x1f]);
    assert_eq!(result, Ok(()));
}

#[test]
fn the_largest_queued_limit_holds() {
    let mut decoder = FastDecoder::new(10);
    // 50
    let update = [0x3f, 0x13];
    assert_eq!(run(&mut decoder, &update).1, Err(DecoderError::InvalidMaxDynamicSize));
    decoder.queue_size_update(20);
    decoder.queue_size_update(50);
    decoder.queue_size_update(30);
    assert_eq!(run(&mut decoder, &update).1, Ok(()));
    assert_eq!(decoder.dyn_table_max(), 50);
    assert_eq!(run(&mut decoder, &update).1, Ok(()));
    decoder.queue_size_update(49);
    assert_eq!(run(&mut decoder, &update).1, Err(DecoderError::InvalidMaxDynamicSize));
}

#[test]
fn a_table_without_room() {
    let mut decoder = FastDecoder::new(33);
    run(&mut decoder, &literal(0x40, &[plain(b"x"), plain(b"")])).1.unwrap();
    assert_eq!(decoder.dyn_table_len(), 1);
    run(&mut decoder, &literal(0x40, &[plain(b"x"), plain(b"1")])).1.unwrap();
    assert_eq!((decoder.dyn_table_len(), decoder.dyn_table_size()), (0, 0));
}

#[test]
fn a_name_whose_entry_makes_way() {
    let mut decoder = FastDecoder::new(38);
    run(&mut decoder, &literal(0x40, &[plain(b"foo"), plain(b"bar")])).1.unwrap();
    assert_eq!(decoder.dyn_table_size(), 38);
    let mut block = literal(0x7e, &[plain(b"baz")]);
    block.push(0xbe);
    assert_eq!(run(&mut decoder, &block).0, ["foo: baz", "foo: baz"]);
    assert_eq!(decoder.dyn_table_len(), 1);
}

#[test]
fn a_header_before_an_empty_name() {
    let block = [0x82, 0x00, 0x00, 0x00];
    let (headers, result, left) = run(&mut FastDecoder::new(4096), &block);
    assert_eq!(headers, [":method: GET"]);
    assert_eq!(result, Err(DecoderError::NeedMore(NeedMore::UnexpectedEndOfStream)));
    assert_eq!(left, block);
}

#[test]
fn a_value_longer_than_sixteen_bits() {
    // 65541 bytes, of which the length keeps five.
    let mut block = literal(0x00, &[plain(b"x"), vec![0x7f, 0x86, 0xff, 0x03]]);
    block.extend_from_slice(b"abcdefgh");
    block.resize(block.len() + 65533, b'z');
    let (headers, result, left) = run(&mut FastDecoder::new(4096), &block);
    assert_eq!((headers, result), (vec!["x: abcde".to_string()], Ok(())));
    assert!(left.is_empty());
}

#[test]
fn decoding_starts_at_the_cursor() {
    let mut buf = BytesMut::from(&[0xff, 0xff, 0x82][..]);
    let mut src = Cursor::new(&mut buf);
    src.set_position(2);
    let mut count = 0;
    FastDecoder::new(4096).decode(&mut src, |_| count += 1).unwrap();
    assert_eq!((count, src.position()), (1, 0));
    assert!(buf.is_empty());
}

#[test]
fn a_refused_block_leaves_the_cursor() {
    let mut buf = BytesMut::from(&[0xff, 0x80][..]);
    let mut src = Cursor::new(&mut buf);
    src.set_position(1);
    assert!(FastDecoder::new(4096).decode(&mut src, |_| ()).is_err());
    assert_eq!(src.position(), 1);
    assert_eq!(&buf[..], &[0xff, 0x80]);
}

#[test]
fn a_cursor_beyond_its_buffer() {
    let mut decoder = FastDecoder::new(4096);
    let mut buf = BytesMut::from(&[0x82][..]);
    let mut src = Cursor::new(&mut buf);
    src.set_position(2);
    assert_eq!(decoder.try_decode(&mut src, |_| ()), None);
    assert_eq!(src.position(), 2);
    src.set_position(0);
    let mut count = 0;
    assert_eq!(decoder.try_decode(&mut src, |_| count += 1), Some(Ok(())));
    assert_eq!(count, 1);
    assert_eq!(src.get_ref().len(), 0);
    assert!(decoder.has_room_for(1 << 12));
    assert!(!decoder.has_room_for(usize::MAX));
}

#[test]
fn headers_are_appended() {
    let mut decoder = FastDecoder::new(4096);
    let mut headers = vec![];
    for block in [[0x82, 0x84], [0x86, 0x82]] {
        let mut buf = BytesMut::from(&block[..]);
        decoder.decode_to_vec(&mut Cursor::new(&mut buf), &mut headers).unwrap();
        assert!(buf.is_empty());
    }
    let said: Vec<String> = headers.iter().map(say).collect();
    assert_eq!(said, [":method: GET", ":path: /", ":scheme: http", ":method: GET"]);
    let mut buf = BytesMut::from(&[0x82, 0x48, 0x01, b'x'][..]);
    let result = decoder.decode_to_vec(&mut Cursor::new(&mut buf), &mut headers);
    assert_eq!(result, Err(DecoderError::InvalidStatusCode));
    assert_eq!((headers.len(), buf.len()), (5, 4));
}

fn count<D: HpackDecode>(decoder: &mut D, block: &[u8]) -> usize {
    let mut buf = BytesMut::from(block);
    let mut n = 0;
    decoder.decode(&mut Cursor::new(&mut buf), |_| n += 1).unwrap();
    n
}

#[test]
fn any_decoder() {
    assert_eq!(count(&mut FastDecoder::new(4096), &[0x82, 0x84]), 2);
}
