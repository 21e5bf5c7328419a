use bytes::BytesMut;
use std::borrow::Cow;
use tokio_stomp::frame::Frame;
use tokio_stomp::parser::parse_frame;

fn frame<'a>(
    command: &'a [u8],
    headers: &[(&'a [u8], &'a [u8])],
    body: Option<&'a [u8]>,
) -> Frame<'a> {
    Frame {
        command,
        headers: headers.iter().map(|&(k, v)| (k, Cow::Borrowed(v))).collect(),
        body,
    }
}

fn written(f: &Frame) -> Vec<u8> {
    let mut buffer = BytesMut::new();
    f.serialize(&mut buffer);
    buffer.to_vec()
}

#[test]
fn frame_without_headers_or_body() {
    assert_eq!(written(&frame(b"DISCONNECT", &[], None)), b"DISCONNECT\n\n\x00".to_vec());
}

#[test]
fn headers_are_written_in_order() {
    let f = frame(b"X", &[(b"b", b"2"), (b"a", b"1"), (b"b", b"3"), (b"", b""), (b"e", b"")], None);
    assert_eq!(written(&f), b"X\nb:2\na:1\nb:3\n:\ne:\n\n\x00".to_vec());
}

#[test]
fn the_four_bytes_are_escaped_in_keys_and_values() {
    let f = frame(b"X", &[(b"k\r\n:\\", b"v\r\n:\\v")], None);
    assert_eq!(written(&f), b"X\nk\\r\\n\\c\\\\:v\\r\\n\\c\\\\v\n\n\x00".to_vec());
}

#[test]
fn escaped_header_is_read_as_one_header() {
    let f = frame(b"X", &[(b"ke:y", b"a\r\nb:c\\d"), (b"next", b"1")], None);
    let bytes = written(&f);
    let (rest, back) = parse_frame(&bytes).unwrap();
    assert!(rest.is_empty());
    let got: Vec<(&[u8], &[u8])> = back.headers.iter().map(|&(k, ref v)| (k, &**v)).collect();
    assert_eq!(got, vec![(&b"ke\\cy"[..], &b"a\\r\\nb\\cc\\\\d"[..]), (&b"next"[..], &b"1"[..])]);
}

#[test]
fn command_and_body_are_not_escaped() {
    let f = frame(b"A:B\\", &[], Some(b"x:\\\r\n\x00y"));
    assert_eq!(written(&f), b"A:B\\\ncontent-length:7\n\nx:\\\r\n\x00y\x00".to_vec());
}

#[test]
fn body_brings_its_length() {
    let f = frame(b"SEND", &[(b"destination", b"/q")], Some(b"hello"));
    assert_eq!(written(&f), b"SEND\ndestination:/q\ncontent-length:5\n\nhello\x00".to_vec());
}

#[test]
fn empty_body_is_written_with_length_zero() {
    let f = frame(b"SEND", &[], Some(b""));
    let bytes = written(&f);
    assert_eq!(bytes, b"SEND\ncontent-length:0\n\n\x00".to_vec());
    let (_, back) = parse_frame(&bytes).unwrap();
    assert_eq!(back.body, Some(&b""[..]));
}

#[test]
fn length_is_added_even_where_a_header_gives_one() {
    let f = frame(b"SEND", &[(b"content-length", b"5")], Some(b"hello"));
    assert_eq!(written(&f), b"SEND\ncontent-length:5\ncontent-length:5\n\nhello\x00".to_vec());
}

#[test]
fn serialize_appends_to_what_the_buffer_holds() {
    let mut buffer = BytesMut::from(&b"before"[..]);
    frame(b"A", &[(b"k", b"v")], None).serialize(&mut buffer);
    frame(b"B", &[], Some(b"x")).serialize(&mut buffer);
    assert_eq!(&buffer[..], b"beforeA\nk:v\n\n\x00B\ncontent-length:1\n\nx\x00");
}

#[test]
fn serialize_works_on_a_full_buffer() {
    let mut buffer = BytesMut::with_capacity(0);
    let body = vec![b'x'; 5000];
    let f = frame(b"SEND", &[(b"destination", b"/q")], Some(&body));
    f.serialize(&mut buffer);
    assert_eq!(buffer.len(), f.wire_len().unwrap());
    assert!(buffer.capacity() >= buffer.len());
    assert_eq!(&buffer[buffer.len() - 5001..buffer.len() - 1], &body[..]);
}

#[test]
fn wire_len_is_the_number_of_bytes_written() {
    let frames = vec![
        frame(b"A", &[], None),
        frame(b"", &[], None),
        frame(b"SEND", &[(b"destination", b"/q"), (b"k\r\n:\\", b"::::")], Some(b"hello")),
        frame(b"SEND", &[(b"", b"")], Some(b"")),
        frame(b"X", &[(b"a", b"b"), (b"c", b"d")], Some(&[0u8; 12345])),
    ];
    for f in frames {
        assert_eq!(f.wire_len(), Some(written(&f).len()));
    }
}

#[test]
fn frame_fits_an_ordinary_buffer() {
    let f = frame(b"SEND", &[(b"destination", b"/q")], Some(b"hello"));
    assert!(f.fits(&BytesMut::new()));
    assert!(f.fits(&BytesMut::from(&b"some bytes"[..])));
}

#[test]
fn size_hint_adds_up_the_parts() {
    assert_eq!(frame(b"", &[], None).size_hint(), 30);
    assert_eq!(frame(b"SEND", &[], None).size_hint(), 34);
    assert_eq!(frame(b"SEND", &[], Some(b"")).size_hint(), 54);
    assert_eq!(frame(b"SEND", &[(b"ab", b"cde"), (b"f", b"")], Some(b"12345")).size_hint(), 65);
    assert_eq!(frame(b"X", &[(b"\r\n", b":\\")], None).size_hint(), 35);
}

#[test]
fn headers_bring_one_colon_and_one_line_feed_each() {
    let headers: Vec<(&[u8], &[u8])> = vec![
        (b"plain", b"value"),
        (b"k:e\ny\r", b"::\n\n\r\r\\"),
        (b"", b""),
        (b"\r\n", b":"),
    ];
    for n in 0..=headers.len() {
        let bytes = written(&frame(b"COMMAND", &headers[..n], None));
        let count = |b: u8| bytes.iter().filter(|&&x| x == b).count();
        assert_eq!(count(b':'), n);
        assert_eq!(count(b'\n'), n + 2);
        assert_eq!(count(b'\r'), 0);
        let (rest, back) = parse_frame(&bytes).unwrap();
        assert!(rest.is_empty());
        assert_eq!(back.headers.len(), n);
    }
}
