use bytes::Bytes;
use hpack::arena::{DecodedHeader, WriteArena};
use hpack::dyn_table::DynTable;
use hpack::integer::{decode_int_fast, decode_int_slow};
use hpack::materialize::{materialize_field, materialize_static_full, materialize_static_name};
use hpack::static_table::{
    match_known_header, same_bytes, static_idx_to_header_name, static_name_bytes, STATIC_TABLE,
};
use hpack::{BytesStr, DecoderError, Header, NeedMore};

fn read_int(data: &[u8], prefix: u8) -> (Result<usize, DecoderError>, usize) {
    let mut pos = 0;
    let r = decode_int_fast(data, &mut pos, prefix);
    (r, pos)
}

#[test]
fn integers() {
    assert_eq!(read_int(&[0b1110_1010], 5), (Ok(10), 1));
    assert_eq!(read_int(&[0x1f, 0x9a, 0x0a], 5), (Ok(1337), 3));
    assert_eq!(read_int(&[42], 8), (Ok(42), 1));
    assert_eq!(read_int(&[0xff, 0x01], 8), (Ok(256), 2));
    assert_eq!(read_int(&[0x7f, 0xff, 0xff, 0xff, 0x7f], 7), (Ok(127 + 0x0fff_ffff), 5));
}

#[test]
fn integers_that_are_refused() {
    let underflow = Err(DecoderError::NeedMore(NeedMore::IntegerUnderflow));
    assert_eq!(read_int(&[], 7), (underflow, 0));
    assert_eq!(read_int(&[0x7f], 7), (underflow, 1));
    assert_eq!(read_int(&[0x7f, 0x80], 7), (underflow, 2));
    let overflow = Err(DecoderError::IntegerOverflow);
    assert_eq!(read_int(&[0x7f, 0x80, 0x80, 0x80, 0x80, 0x01], 7), (overflow, 5));
}

#[test]
fn integers_after_the_prefix() {
    let mut pos = 1;
    assert_eq!(decode_int_slow(&[9, 0x85, 0x01, 9], &mut pos, 100), Ok(100 + 5 + 128));
    assert_eq!(pos, 3);
}

#[test]
fn the_oldest_entries_make_way() {
    let mut table = DynTable::new(100);
    table.insert_raw(b"a", b"1");
    table.insert_raw(b"b", b"2");
    assert_eq!((table.len(), table.size()), (2, 68));
    table.insert_raw(b"c", b"3");
    assert_eq!((table.len(), table.size(), table.max_size()), (2, 68, 100));
    assert_eq!(table.name_slice(table.get(0).unwrap()), b"c");
    assert_eq!(table.name_slice(table.get(1).unwrap()), b"b");
    assert!(table.get(2).is_none());
    assert_eq!(table.get(0).unwrap().entry_size, 34);
    assert_eq!(table.log_len(), 6);
}

#[test]
fn a_field_as_large_as_the_table() {
    let mut table = DynTable::new(40);
    table.insert_raw(b"name", b"four");
    assert_eq!((table.len(), table.size()), (1, 40));
    table.insert_raw(b"name", b"value");
    assert_eq!((table.len(), table.size()), (0, 0));
}

#[test]
fn a_smaller_limit() {
    let mut table = DynTable::new(4096);
    for name in [b"a", b"b", b"c"] {
        table.insert_raw(name, b"");
    }
    table.set_max_size(99);
    assert_eq!((table.len(), table.size()), (3, 99));
    table.set_max_size(98);
    assert_eq!((table.len(), table.size()), (2, 66));
    assert_eq!(table.name_slice(table.get(1).unwrap()), b"b");
    table.reserve(50);
    assert_eq!(table.len(), 1);
    table.set_max_size(0);
    assert_eq!((table.len(), table.size(), table.max_size()), (0, 0, 0));
}

#[test]
fn a_limit_below_the_cost_of_an_entry() {
    let mut table = DynTable::new(64);
    table.insert_raw(b"", b"");
    table.insert_raw(b"", b"");
    assert_eq!((table.len(), table.size()), (2, 64));
    table.set_max_size(32);
    assert_eq!((table.len(), table.size()), (1, 32));
    table.set_max_size(31);
    assert_eq!((table.len(), table.size()), (0, 0));
}

#[test]
fn the_size_is_what_names_and_values_cost() {
    let mut table = DynTable::new(4096);
    for (name, value) in [("a", "bc"), ("", ""), ("content-type", "text/html")] {
        table.insert_raw(name.as_bytes(), value.as_bytes());
    }
    let cost = |i: usize| {
        let entry = table.get(i).unwrap();
        entry.name_len as usize + entry.value_len as usize + 32
    };
    assert_eq!(table.size(), cost(0) + cost(1) + cost(2));
    assert_eq!(table.size(), 120);
}

#[test]
fn entries_are_copied() {
    let mut table = DynTable::new(4096);
    table.insert_raw(b"foo", b"barbaz");
    let mut arena = WriteArena::new();
    assert_eq!(arena.write(b"xy"), (0, 2));
    let decoded = table.copy_to_arena(table.get(0).unwrap(), &mut arena);
    match decoded {
        DecodedHeader::Arena { name_offset, name_len, value_offset, value_len } => {
            assert_eq!((name_offset, name_len, value_offset, value_len), (2, 3, 5, 6));
        }
        _ => panic!("expected a header in the arena"),
    }
    let frozen = arena.freeze();
    assert_eq!(&frozen[..], b"xyfoobarbaz");
    match decoded.materialize(&frozen).unwrap() {
        Header::Field { name, value } => {
            assert_eq!(name.as_str(), "foo");
            assert_eq!(value.as_bytes(), b"barbaz");
        }
        other => panic!("expected a field, got {:?}", other),
    }
}

#[test]
fn an_arena() {
    let mut arena = WriteArena::new();
    assert_eq!(arena.write(b"abc"), (0, 3));
    assert_eq!(arena.reserve_mut(4), (3, 3));
    arena.as_mut_slice()[3] = b'd';
    arena.truncate_to(5);
    arena.truncate_to(100);
    assert_eq!(arena.slice_ref(2, 2), b"cd");
    assert_eq!(&arena.freeze()[..], b"abcd\0");
}

#[test]
fn long_strings_are_cut() {
    let mut arena = WriteArena::new();
    assert_eq!(arena.write(&vec![b'x'; 65535]), (0, 65535));
    assert_eq!(arena.write(&vec![b'y'; 65539]), (65535, 3));
    assert_eq!(arena.slice_ref(65535, 3), b"yyy");
}

#[test]
fn static_entries_are_what_their_names_and_values_make() {
    for idx in 1..=61u8 {
        let (name, value) = STATIC_TABLE[idx as usize];
        let whole = format!("{:?}", materialize_static_full(idx));
        let made = Header::new(
            Bytes::from_static(name.as_bytes()),
            Bytes::from_static(value.as_bytes()),
        );
        assert_eq!(whole, format!("{:?}", made.unwrap()));
        let named = materialize_static_name(idx, Bytes::from_static(value.as_bytes()));
        assert_eq!(whole, format!("{:?}", named.unwrap()));
        let field = materialize_field(
            Bytes::from_static(name.as_bytes()),
            Bytes::from_static(value.as_bytes()),
        );
        assert_eq!(whole, format!("{:?}", field.unwrap()));
        assert_eq!(static_name_bytes(idx), name.as_bytes());
    }
}

#[test]
fn the_one_static_field_with_a_value() {
    match materialize_static_full(16) {
        Header::Field { name, value } => {
            assert_eq!(name, http::header::ACCEPT_ENCODING);
            assert_eq!(value.as_bytes(), b"gzip, deflate");
        }
        other => panic!("expected a field, got {:?}", other),
    }
}

#[test]
fn all_known_names_are_matched() {
    for idx in 15..=61u8 {
        let name = STATIC_TABLE[idx as usize].0;
        let found = match_known_header(name.as_bytes()).unwrap();
        assert_eq!(found.as_str(), name);
        assert_eq!(static_idx_to_header_name(idx), found);
    }
    assert_eq!(match_known_header(b":path"), None);
    assert_eq!(match_known_header(b"hosts"), None);
    assert_eq!(match_known_header(b"hose"), None);
    assert!(same_bytes(b"host", b"host"));
    assert!(!same_bytes(b"host", b"hose"));
    assert!(!same_bytes(b"host", b"hos"));
}

#[test]
fn sizes_of_headers() {
    let field = Header::new(Bytes::from_static(b"foo"), Bytes::from_static(b"barbaz"));
    assert_eq!(field.unwrap().len(), 41);
    let sizes = [(1, 42), (2, 42), (3, 43), (4, 38), (5, 48), (6, 43), (7, 44), (8, 42), (15, 46)];
    for (idx, size) in sizes {
        assert_eq!(materialize_static_full(idx).len(), size);
    }
    let protocol = Header::new(Bytes::from_static(b":protocol"), Bytes::from_static(b"ws"));
    assert_eq!(protocol.unwrap().len(), 43);
}

#[test]
fn texts() {
    assert_eq!(BytesStr::from_static("h\u{e9}").as_str(), "h\u{e9}");
    assert_eq!(BytesStr::from_static("h\u{e9}").len(), 3);
    assert_eq!(BytesStr::try_from(Bytes::from_static(b"ok")).unwrap().as_str(), "ok");
    let bad = BytesStr::try_from(Bytes::from_static(b"\xff"));
    assert_eq!(bad.map(|_| ()), Err(DecoderError::InvalidUtf8));
}

#[test]
fn names_from_the_static_table() {
    let made = |idx: u8, value: &'static [u8]| {
        materialize_static_name(idx, Bytes::from_static(value))
    };
    assert!(matches!(made(1, b"host"), Ok(Header::Authority(a)) if a.as_str() == "host"));
    assert!(matches!(made(3, b"PUT"), Ok(Header::Method(m)) if m == http::Method::PUT));
    assert!(matches!(made(5, b"/x"), Ok(Header::Path(p)) if p.as_str() == "/x"));
    assert!(matches!(made(6, b"ftp"), Ok(Header::Scheme(s)) if s.as_str() == "ftp"));
    assert!(matches!(made(14, b"418"), Ok(Header::Status(s)) if s.as_u16() == 418));
    assert!(matches!(made(8, b"099"), Err(DecoderError::InvalidStatusCode)));
    assert!(matches!(made(8, b"20"), Err(DecoderError::InvalidStatusCode)));
    assert!(matches!(made(2, b"G T"), Err(DecoderError::InvalidUtf8)));
    assert!(matches!(made(4, b"\xff"), Err(DecoderError::InvalidUtf8)));
    assert!(matches!(made(31, b"\n"), Err(DecoderError::InvalidUtf8)));
    assert!(matches!(made(0, b""), Err(DecoderError::InvalidTableIndex)));
    assert!(matches!(made(62, b""), Err(DecoderError::InvalidTableIndex)));
}

#[test]
fn names_that_are_spelled_out() {
    let made = |name: &'static [u8], value: &'static [u8]| {
        materialize_field(Bytes::from_static(name), Bytes::from_static(value))
    };
    let empty = DecoderError::NeedMore(NeedMore::UnexpectedEndOfStream);
    assert_eq!(made(b"", b"x").map(|_| ()), Err(empty));
    assert_eq!(made(b"Host", b"x").map(|_| ()), Err(DecoderError::InvalidUtf8));
    assert_eq!(made(b"host", b"\0").map(|_| ()), Err(DecoderError::InvalidUtf8));
    assert_eq!(made(b":hosts", b"x").map(|_| ()), Err(DecoderError::InvalidPseudoheader));
    assert_eq!(made(b":status", b"abc").map(|_| ()), Err(DecoderError::InvalidUtf8));
    assert_eq!(made(b":method", b"").map(|_| ()), Err(DecoderError::InvalidUtf8));
    assert!(matches!(made(b":protocol", b"ws"), Ok(Header::Protocol(p)) if p.as_str() == "ws"));
    assert!(matches!(made(b":status", b"204"), Ok(Header::Status(s)) if s.as_u16() == 204));
    assert!(matches!(made(b":method", b"GET"), Ok(Header::Method(m)) if m == http::Method::GET));
    assert!(matches!(made(b"x-a", b"b"), Ok(Header::Field { name, .. }) if name == "x-a"));
}
