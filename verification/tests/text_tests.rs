use tokio_stomp::frame::{
    expect_header, fetch_header, find_header, get_content_length, get_content_length_header,
    is_empty_slice, parse_heartbeat, read_heartbeat_value, strip_cr, value_bytes, Frame,
};
use tokio_stomp::error::StompError;
use tokio_stomp::text::{
    bytes_eq, eq_ignore_ascii_case, find_byte, find_either, parse_u32, push_decimal,
};
use std::borrow::Cow;

#[test]
fn strip_cr_drops_one_trailing_carriage_return() {
    assert_eq!(strip_cr(b"abc\r"), b"abc");
    assert_eq!(strip_cr(b"abc"), b"abc");
    assert_eq!(strip_cr(b"abc\r\r"), b"abc\r");
    assert_eq!(strip_cr(b"\rabc"), b"\rabc");
    assert_eq!(strip_cr(b"\r"), b"");
    assert_eq!(strip_cr(b""), b"");
}

#[test]
fn is_empty_slice_tells_empty_from_none() {
    assert_eq!(is_empty_slice(b""), None);
    assert_eq!(is_empty_slice(b"a"), Some(&b"a"[..]));
    assert_eq!(is_empty_slice(b"\x00"), Some(&b"\x00"[..]));
}

#[test]
fn content_length_header_is_written_in_decimal() {
    assert_eq!(get_content_length_header(b""), b"content-length:0\n".to_vec());
    assert_eq!(get_content_length_header(b"abcde"), b"content-length:5\n".to_vec());
    let body = vec![0u8; 1234];
    assert_eq!(get_content_length_header(&body), b"content-length:1234\n".to_vec());
}

#[test]
fn decimal_is_written_as_the_standard_library_writes_it() {
    for n in [0usize, 1, 9, 10, 11, 99, 100, 101, 12345, 4294967295, usize::MAX] {
        let mut out = b"x".to_vec();
        push_decimal(n, &mut out);
        assert_eq!(out, format!("x{}", n).into_bytes());
    }
}

#[test]
fn u32_is_read_as_the_standard_library_reads_it() {
    let cases = [
        "", "+", "-", "0", "7", "007", "+5", "-5", "+-5", "++5", "5+", "12", "4294967295",
        "4294967296", "42949672950", "99999999999999999999", "000000000000000000000000001",
        "12a", "a12", " 1", "1 ", "1,2", "0x10", "１", "1.0", "+0", "-0",
    ];
    for case in cases {
        assert_eq!(parse_u32(case.as_bytes()), case.parse::<u32>().ok(), "{:?}", case);
    }
    assert_eq!(parse_u32(b"50"), Some(50));
    assert_eq!(parse_u32(b"4294967295"), Some(u32::MAX));
    assert_eq!(parse_u32(b"4294967296"), None);
    assert_eq!(parse_u32(b"\xff"), None);
}

#[test]
fn case_is_ignored_as_the_standard_library_ignores_it() {
    let cases: [(&[u8], &[u8]); 9] = [
        (b"", b""),
        (b"send", b"SEND"),
        (b"SeNd", b"sEnD"),
        (b"send", b"sent"),
        (b"send", b"sen"),
        (b"a-b", b"A-B"),
        (b"@", b"`"),
        (b"[", b"{"),
        (b"\xc9", b"\xe9"),
    ];
    for (a, b) in cases {
        assert_eq!(eq_ignore_ascii_case(a, b), a.eq_ignore_ascii_case(b), "{:?} {:?}", a, b);
    }
    assert!(eq_ignore_ascii_case(b"Connect", b"cONNECT"));
    assert!(!eq_ignore_ascii_case(b"@", b"`"));
}

#[test]
fn bytes_eq_compares_contents() {
    assert!(bytes_eq(b"", b""));
    assert!(bytes_eq(b"abc", b"abc"));
    assert!(!bytes_eq(b"abc", b"abd"));
    assert!(!bytes_eq(b"abc", b"ab"));
    assert!(!bytes_eq(b"abc", b"ABC"));
}

#[test]
fn find_gives_the_first_index() {
    assert_eq!(find_byte(b"a:b:c", 0, b':'), Some(1));
    assert_eq!(find_byte(b"a:b:c", 2, b':'), Some(3));
    assert_eq!(find_byte(b"a:b:c", 4, b':'), None);
    assert_eq!(find_byte(b"a:b:c", 5, b':'), None);
    assert_eq!(find_byte(b"", 0, b':'), None);
    assert_eq!(find_either(b"ab\ncd:e", 0, b':', b'\n'), Some(2));
    assert_eq!(find_either(b"ab\ncd:e", 3, b':', b'\n'), Some(5));
    assert_eq!(find_either(b"ab\ncd:e", 6, b':', b'\n'), None);
}

#[test]
fn heartbeat_is_two_numbers_with_a_comma() {
    assert_eq!(parse_heartbeat("0,0"), Ok((0, 0)));
    assert_eq!(parse_heartbeat("10,20"), Ok((10, 20)));
    assert_eq!(parse_heartbeat("4294967295,1"), Ok((4294967295, 1)));
    assert_eq!(parse_heartbeat("+1,+2"), Ok((1, 2)));
    let bad = Err(StompError::InvalidHeaderValue("heart-beat"));
    assert_eq!(parse_heartbeat(""), bad);
    assert_eq!(parse_heartbeat("10"), bad);
    assert_eq!(parse_heartbeat(","), bad);
    assert_eq!(parse_heartbeat("1,"), bad);
    assert_eq!(parse_heartbeat(",1"), bad);
    assert_eq!(parse_heartbeat("1,2,3"), bad);
    assert_eq!(parse_heartbeat("1, 2"), bad);
    assert_eq!(parse_heartbeat("a,b"), bad);
    assert_eq!(parse_heartbeat("4294967296,1"), bad);
    assert_eq!(parse_heartbeat("-1,1"), bad);
    assert_eq!(read_heartbeat_value(b"7,8"), Ok((7, 8)));
    assert_eq!(read_heartbeat_value(b"7,\xff"), bad);
}

fn sample_headers() -> Vec<(&'static [u8], Cow<'static, [u8]>)> {
    vec![
        (&b"a"[..], Cow::Borrowed(&b"first"[..])),
        (&b"b"[..], Cow::Owned(b"owned".to_vec())),
        (&b"a"[..], Cow::Borrowed(&b"second"[..])),
        (&b"bad"[..], Cow::Borrowed(&b"\xff\xfe"[..])),
        (&b"content-length"[..], Cow::Borrowed(&b"12"[..])),
        (&b""[..], Cow::Borrowed(&b"no key"[..])),
    ]
}

#[test]
fn first_header_with_a_key_wins() {
    let h = sample_headers();
    assert_eq!(find_header(&h, b"a"), Some(&b"first"[..]));
    assert_eq!(find_header(&h, b"b"), Some(&b"owned"[..]));
    assert_eq!(find_header(&h, b""), Some(&b"no key"[..]));
    assert_eq!(find_header(&h, b"A"), None);
    assert_eq!(find_header(&h, b"c"), None);
    assert_eq!(find_header(&[], b"a"), None);
}

#[test]
fn header_text_needs_valid_utf8() {
    let h = sample_headers();
    assert_eq!(fetch_header(&h, "a"), Some("first".to_string()));
    assert_eq!(fetch_header(&h, "b"), Some("owned".to_string()));
    assert_eq!(fetch_header(&h, "bad"), None);
    assert_eq!(fetch_header(&h, "missing"), None);
    let utf8 = vec![(&b"k"[..], Cow::Borrowed("gr\u{fc}\u{df}e \u{2603}".as_bytes()))];
    assert_eq!(fetch_header(&utf8, "k"), Some("gr\u{fc}\u{df}e \u{2603}".to_string()));
}

#[test]
fn expected_header_that_is_absent_is_named() {
    let h = sample_headers();
    assert_eq!(expect_header(&h, "a"), Ok("first".to_string()));
    assert_eq!(expect_header(&h, "host"), Err(StompError::MissingHeader("host")));
    assert_eq!(expect_header(&h, "bad"), Err(StompError::MissingHeader("bad")));
}

#[test]
fn content_length_is_read_from_the_first_such_header() {
    let h = sample_headers();
    assert_eq!(get_content_length(&h), Some(12));
    let two = vec![
        (&b"content-length"[..], Cow::Borrowed(&b"x"[..])),
        (&b"content-length"[..], Cow::Borrowed(&b"3"[..])),
    ];
    assert_eq!(get_content_length(&two), None);
    assert_eq!(get_content_length(&[]), None);
}

#[test]
fn value_bytes_reads_borrowed_and_owned() {
    let borrowed: Cow<[u8]> = Cow::Borrowed(&b"abc"[..]);
    let owned: Cow<[u8]> = Cow::Owned(b"def".to_vec());
    assert_eq!(value_bytes(&borrowed), b"abc");
    assert_eq!(value_bytes(&owned), b"def");
}

#[test]
fn new_frame_leaves_out_headers_without_value() {
    let entries: Vec<(&[u8], Option<Cow<[u8]>>)> = vec![
        (&b"a"[..], Some(Cow::Borrowed(&b"1"[..]))),
        (&b"b"[..], None),
        (&b"c"[..], Some(Cow::Owned(b"3".to_vec()))),
        (&b"d"[..], None),
        (&b"e"[..], Some(Cow::Borrowed(&b""[..]))),
    ];
    let frame = Frame::new(b"CMD", &entries, Some(b"body"));
    assert_eq!(frame.command, b"CMD");
    let got: Vec<(&[u8], &[u8])> = frame.headers.iter().map(|&(k, ref v)| (k, &**v)).collect();
    assert_eq!(got, vec![(&b"a"[..], &b"1"[..]), (&b"c"[..], &b"3"[..]), (&b"e"[..], &b""[..])]);
    assert_eq!(frame.body, Some(&b"body"[..]));
    let empty = Frame::new(b"X", &[], None);
    assert!(empty.headers.is_empty());
    assert_eq!(empty.body, None);
}
