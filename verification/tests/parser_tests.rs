use std::borrow::Cow;
use tokio_stomp::error::StompError;
use tokio_stomp::frame::Frame;
use tokio_stomp::parser::parse_frame;

fn headers_of<'a>(frame: &'a Frame<'a>) -> Vec<(&'a [u8], &'a [u8])> {
    frame.headers.iter().map(|&(k, ref v)| (k, &**v)).collect()
}

fn error_of(input: &[u8]) -> StompError {
    match parse_frame(input) {
        Ok(_) => panic!("a frame was read from {:?}", input),
        Err(e) => e,
    }
}

#[test]
fn smallest_frame() {
    let data = b"A\n\n\x00";
    let (rest, frame) = parse_frame(data).unwrap();
    assert_eq!(frame.command, b"A");
    assert!(frame.headers.is_empty());
    assert_eq!(frame.body, None);
    assert!(rest.is_empty());
}

#[test]
fn empty_buffer_is_incomplete() {
    assert_eq!(error_of(b""), StompError::Incomplete);
}

#[test]
fn heartbeats_alone_are_incomplete() {
    assert_eq!(error_of(b"\n"), StompError::Incomplete);
    assert_eq!(error_of(b"\n\r\n\n"), StompError::Incomplete);
    assert_eq!(error_of(b"\n\r"), StompError::Incomplete);
}

#[test]
fn leading_heartbeats_are_skipped() {
    let data = b"\n\r\n\nSEND\ndestination:/q\n\n\x00";
    let (rest, frame) = parse_frame(data).unwrap();
    assert_eq!(frame.command, b"SEND");
    assert_eq!(headers_of(&frame), vec![(&b"destination"[..], &b"/q"[..])]);
    assert_eq!(frame.body, None);
    assert!(rest.is_empty());
}

#[test]
fn trailing_heartbeats_are_consumed() {
    let data = b"A\n\n\x00\n\r\n\nB\n\n\x00";
    let (rest, frame) = parse_frame(data).unwrap();
    assert_eq!(frame.command, b"A");
    assert_eq!(rest, b"B\n\n\x00");
    let (rest, frame) = parse_frame(rest).unwrap();
    assert_eq!(frame.command, b"B");
    assert!(rest.is_empty());
}

#[test]
fn trailing_carriage_return_alone_is_left() {
    let data = b"A\n\n\x00\n\r";
    let (rest, _) = parse_frame(data).unwrap();
    assert_eq!(rest, b"\r");
    let data = b"A\n\n\x00\rX";
    let (rest, _) = parse_frame(data).unwrap();
    assert_eq!(rest, b"\rX");
}

#[test]
fn carriage_returns_are_stripped_from_lines() {
    let data = b"SEND\r\ndestination:/q\r\nempty:\r\n\r\nhello\x00";
    let (rest, frame) = parse_frame(data).unwrap();
    assert_eq!(frame.command, b"SEND");
    assert_eq!(
        headers_of(&frame),
        vec![(&b"destination"[..], &b"/q"[..]), (&b"empty"[..], &b""[..])]
    );
    assert_eq!(frame.body, Some(&b"hello"[..]));
    assert!(rest.is_empty());
}

#[test]
fn only_one_carriage_return_is_stripped() {
    let data = b"A\r\r\nk:v\r\r\n\n\x00";
    let (_, frame) = parse_frame(data).unwrap();
    assert_eq!(frame.command, b"A\r");
    assert_eq!(headers_of(&frame), vec![(&b"k"[..], &b"v\r"[..])]);
}

#[test]
fn header_value_may_hold_colons() {
    let data = b"A\nk:a:b:c\n:v\n\n\x00";
    let (_, frame) = parse_frame(data).unwrap();
    assert_eq!(
        headers_of(&frame),
        vec![(&b"k"[..], &b"a:b:c"[..]), (&b""[..], &b"v"[..])]
    );
}

#[test]
fn escapes_are_not_reversed() {
    let data = b"A\nk\\c:v\\n\\r\\\\\n\n\x00";
    let (_, frame) = parse_frame(data).unwrap();
    assert_eq!(headers_of(&frame), vec![(&b"k\\c"[..], &b"v\\n\\r\\\\"[..])]);
}

#[test]
fn values_are_borrowed_from_the_buffer() {
    let data = b"A\nk:v\n\n\x00";
    let (_, frame) = parse_frame(data).unwrap();
    assert!(matches!(frame.headers[0].1, Cow::Borrowed(_)));
}

#[test]
fn line_without_colon_is_malformed() {
    assert_eq!(error_of(b"A\nno colon here\n\n\x00"), StompError::MalformedFrame);
    assert_eq!(error_of(b"A\nk:v\ngarbage\n"), StompError::MalformedFrame);
}

#[test]
fn carriage_return_without_line_feed_is_malformed() {
    assert_eq!(error_of(b"A\n\rX\n\n\x00"), StompError::MalformedFrame);
}

#[test]
fn body_without_length_ends_at_first_nul() {
    let data = b"A\n\nabc\x00def\x00";
    let (rest, frame) = parse_frame(data).unwrap();
    assert_eq!(frame.body, Some(&b"abc"[..]));
    assert_eq!(rest, b"def\x00");
}

#[test]
fn body_with_length_may_hold_anything() {
    let data = b"A\ncontent-length:7\n\na\x00b\n\r\nc\x00rest";
    let (rest, frame) = parse_frame(data).unwrap();
    assert_eq!(frame.body, Some(&b"a\x00b\n\r\nc"[..]));
    assert_eq!(rest, b"rest");
}

#[test]
fn empty_body_with_length_is_not_none() {
    let data = b"A\ncontent-length:0\n\n\x00";
    let (_, frame) = parse_frame(data).unwrap();
    assert_eq!(frame.body, Some(&b""[..]));
    let data = b"A\n\n\x00";
    let (_, frame) = parse_frame(data).unwrap();
    assert_eq!(frame.body, None);
}

#[test]
fn body_shorter_than_announced_is_incomplete() {
    assert_eq!(error_of(b"A\ncontent-length:5\n\nabc\x00"), StompError::Incomplete);
    assert_eq!(error_of(b"A\ncontent-length:3\n\nabc"), StompError::Incomplete);
}

#[test]
fn body_not_followed_by_nul_is_malformed() {
    assert_eq!(error_of(b"A\ncontent-length:2\n\nabc\x00"), StompError::MalformedFrame);
}

#[test]
fn first_content_length_counts() {
    let data = b"A\ncontent-length:1\ncontent-length:3\n\na\x00";
    let (rest, frame) = parse_frame(data).unwrap();
    assert_eq!(frame.body, Some(&b"a"[..]));
    assert!(rest.is_empty());
}

#[test]
fn unreadable_content_length_is_ignored() {
    let data = b"A\ncontent-length:x\ncontent-length:1\n\nabc\x00";
    let (_, frame) = parse_frame(data).unwrap();
    assert_eq!(frame.body, Some(&b"abc"[..]));
    let data = b"A\ncontent-length:4294967296\n\nabc\x00";
    let (_, frame) = parse_frame(data).unwrap();
    assert_eq!(frame.body, Some(&b"abc"[..]));
    let data = b"A\ncontent-length:+3\n\nabc\x00";
    let (_, frame) = parse_frame(data).unwrap();
    assert_eq!(frame.body, Some(&b"abc"[..]));
    let data = b"A\nContent-Length:1\n\nabc\x00";
    let (_, frame) = parse_frame(data).unwrap();
    assert_eq!(frame.body, Some(&b"abc"[..]));
}

#[test]
fn every_cut_before_the_nul_is_incomplete() {
    let mut data = b"\n\r\nMESSAGE\r\ndestination:d\nmessage-id:1\nsubscription:s\ncontent-length:5\n\n"
        .to_vec();
    data.extend_from_slice(b"a\x00\n\x00b");
    let nul = data.len();
    data.extend_from_slice(b"\x00\n\n");
    let (rest, whole) = parse_frame(&data).unwrap();
    assert!(rest.is_empty());
    assert_eq!(whole.body, Some(&b"a\x00\n\x00b"[..]));
    for k in 0..=nul {
        assert_eq!(error_of(&data[..k]), StompError::Incomplete, "cut at {}", k);
    }
    for k in nul + 1..=data.len() {
        let (rest, frame) = parse_frame(&data[..k]).unwrap();
        assert_eq!(frame.command, whole.command);
        assert_eq!(headers_of(&frame), headers_of(&whole));
        assert_eq!(frame.body, whole.body);
        assert!(rest.is_empty());
    }
}

#[test]
fn every_cut_of_a_frame_without_length_is_incomplete() {
    let data = b"SEND\ndestination:/queue/a\nreceipt:r-1\n\nhello world\x00";
    let nul = data.len() - 1;
    for k in 0..=nul {
        assert_eq!(error_of(&data[..k]), StompError::Incomplete, "cut at {}", k);
    }
    assert!(parse_frame(data).is_ok());
}

#[test]
fn more_bytes_do_not_change_a_frame() {
    let data = b"A\nk:v\n\nbody\x00";
    let (_, first) = parse_frame(data).unwrap();
    let mut longer = data.to_vec();
    longer.extend_from_slice(b"B\n\n\x00 and more");
    let (rest, second) = parse_frame(&longer).unwrap();
    assert_eq!(first.command, second.command);
    assert_eq!(headers_of(&first), headers_of(&second));
    assert_eq!(first.body, second.body);
    assert_eq!(rest, b"B\n\n\x00 and more");
}
