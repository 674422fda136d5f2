use crev::bytes::{append_bytes, bytes_eq, bytes_lt, copy_range, text_before, text_eq};
use crev::frame::{
    put_chunk, put_record, split_records, starts_with_at, take_chunk, take_record, Marks,
};

fn marks() -> Marks {
    Marks { open: b"<".to_vec(), middle: b"|".to_vec(), close: b">\n".to_vec() }
}

#[test]
fn chunk_has_its_length_in_front() {
    let mut out = b"x".to_vec();
    put_chunk(&mut out, b"abc");
    assert_eq!(out, b"x0000000000000003\nabc\n".to_vec());
    let mut empty: Vec<u8> = Vec::new();
    put_chunk(&mut empty, b"");
    assert_eq!(empty, b"0000000000000000\n\n".to_vec());
}

#[test]
fn chunk_length_is_written_in_lower_case_hexadecimal() {
    let data = vec![7u8; 0x1af];
    let mut out: Vec<u8> = Vec::new();
    put_chunk(&mut out, &data);
    assert_eq!(&out[..17], b"00000000000001af\n");
    assert_eq!(out.len(), 0x1af + 18);
    assert_eq!(take_chunk(&out, 0), Some((17, 17 + 0x1af)));
}

#[test]
fn take_chunk_finds_the_data() {
    let bytes = b"..0000000000000003\na\nc\nrest".to_vec();
    assert_eq!(take_chunk(&bytes, 2), Some((19, 22)));
    assert_eq!(&bytes[19..22], b"a\nc");
    assert_eq!(take_chunk(&bytes, 0), None);
    assert_eq!(take_chunk(&bytes, bytes.len()), None);
    assert_eq!(take_chunk(&bytes, bytes.len() + 5), None);
}

#[test]
fn take_chunk_refuses_malformed_chunks() {
    assert_eq!(take_chunk(b"", 0), None);
    assert_eq!(take_chunk(b"0000000000000000\n", 0), None);
    assert_eq!(take_chunk(b"0000000000000000\n\n", 0), Some((17, 17)));
    assert_eq!(take_chunk(b"000000000000000A\n0123456789\n", 0), None);
    assert_eq!(take_chunk(b"000000000000000a\n0123456789\n", 0), Some((17, 27)));
    assert_eq!(take_chunk(b"000000000000000g\n0123456789\n", 0), None);
    assert_eq!(take_chunk(b"0000000000000003 abc\n", 0), None);
    assert_eq!(take_chunk(b"0000000000000003\nabcd", 0), None);
    assert_eq!(take_chunk(b"0000000000000003\nab\n", 0), None);
    assert_eq!(take_chunk(b"ffffffffffffffff\nab\n", 0), None);
    assert_eq!(take_chunk(b"       3\nabc\n", 0), None);
}

#[test]
fn record_is_two_chunks_between_marks() {
    let mut out: Vec<u8> = Vec::new();
    put_record(&mut out, &marks(), b"one", b"two!");
    assert_eq!(out, b"<0000000000000003\none\n|0000000000000004\ntwo!\n>\n".to_vec());
    let span = take_record(&out, 0, &marks()).unwrap();
    assert_eq!(span.first, (18, 21));
    assert_eq!(span.second, (40, 44));
    assert_eq!(span.next, out.len());
}

#[test]
fn records_are_read_back_in_order() {
    let mut out: Vec<u8> = Vec::new();
    put_record(&mut out, &marks(), b"1", b"<|>\n");
    put_record(&mut out, &marks(), b"", b"");
    put_record(&mut out, &marks(), b"0000000000000003\nabc\n", &[0, 255, 10]);
    let records = split_records(&out, &marks()).unwrap();
    assert_eq!(
        records,
        vec![
            (b"1".to_vec(), b"<|>\n".to_vec()),
            (Vec::new(), Vec::new()),
            (b"0000000000000003\nabc\n".to_vec(), vec![0, 255, 10]),
        ]
    );
    assert_eq!(split_records(b"", &marks()), Some(Vec::new()));
}

#[test]
fn split_records_refuses_what_is_no_record() {
    let mut out: Vec<u8> = Vec::new();
    put_record(&mut out, &marks(), b"a", b"b");
    let mut more = out.clone();
    more.push(b'<');
    assert_eq!(split_records(&more, &marks()), None);
    assert_eq!(split_records(&out[..out.len() - 1], &marks()), None);
    assert_eq!(split_records(&out[1..], &marks()), None);
    let other = Marks { open: b"<".to_vec(), middle: b"/".to_vec(), close: b">\n".to_vec() };
    assert_eq!(split_records(&out, &other), None);
    assert!(take_record(&out, 1, &marks()).is_none());
    assert!(take_record(&out, out.len(), &marks()).is_none());
}

#[test]
fn starts_with_at_looks_at_one_position() {
    assert!(starts_with_at(b"hello", 1, b"ell"));
    assert!(!starts_with_at(b"hello", 0, b"ell"));
    assert!(starts_with_at(b"hello", 5, b""));
    assert!(!starts_with_at(b"hello", 6, b""));
    assert!(!starts_with_at(b"hello", 3, b"low"));
}

#[test]
fn bytes_are_ordered_lexicographically() {
    assert!(bytes_lt(b"", b"a"));
    assert!(!bytes_lt(b"", b""));
    assert!(!bytes_lt(b"a", b""));
    assert!(bytes_lt(b"a", b"ab"));
    assert!(!bytes_lt(b"ab", b"a"));
    assert!(bytes_lt(b"ab", b"b"));
    assert!(bytes_lt(b"a\x7f", b"a\x80"));
    assert!(!bytes_lt(b"abc", b"abc"));
    assert!(bytes_eq(b"abc", b"abc"));
    assert!(!bytes_eq(b"abc", b"abd"));
    assert!(!bytes_eq(b"abc", b"ab"));
    assert!(bytes_eq(b"", b""));
}

#[test]
fn texts_are_ordered_as_strings_are() {
    let texts = ["", "a", "A", "ab", "b", "\u{e9}", "z", "\u{10348}", "\u{ffff}", "src/a", "src"];
    for a in texts.iter() {
        for b in texts.iter() {
            assert_eq!(text_before(a, b), a < b);
            assert_eq!(text_eq(a, b), a == b);
        }
    }
}

#[test]
fn bytes_are_appended_and_copied() {
    let mut out = b"ab".to_vec();
    append_bytes(&mut out, b"cd");
    append_bytes(&mut out, b"");
    assert_eq!(out, b"abcd".to_vec());
    assert_eq!(copy_range(&out, 1, 3), b"bc".to_vec());
    assert_eq!(copy_range(&out, 4, 4), Vec::<u8>::new());
}
