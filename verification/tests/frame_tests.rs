use bytes::BytesMut;
use tokio_stomp::parser::parse_frame;

#[test]
fn parse_and_serialize_connect() {
    let data = b"CONNECT
accept-version:1.2
host:datafeeds.here.co.uk
login:user
passcode:password\n\n\x00"
        .to_vec();
    let (_, frame) = parse_frame(&data).unwrap();
    assert_eq!(frame.command, b"CONNECT");
    let headers_expect: Vec<(&[u8], &[u8])> = vec![
        (&b"accept-version"[..], &b"1.2"[..]),
        (b"host", b"datafeeds.here.co.uk"),
        (b"login", b"user"),
        (b"passcode", b"password"),
    ];
    let fh: Vec<_> = frame.headers.iter().map(|&(k, ref v)| (k, &**v)).collect();
    assert_eq!(fh, headers_expect);
    assert_eq!(frame.body, None);
    let stomp = frame.to_client_msg().unwrap();
    let mut buffer = BytesMut::new();
    stomp.to_frame().serialize(&mut buffer);
    assert_eq!(&*buffer, &*data);
}

#[test]
fn parse_and_serialize_message() {
    let mut data = b"\nMESSAGE
destination:datafeeds.here.co.uk
message-id:12345
subscription:some-id
empty-header:
"
    .to_vec();
    let body = "this body contains \x00 nulls \n and \r\n newlines \x00 OK?";
    let rest = format!("content-length:{}\n\n{}\x00", body.len(), body);
    data.extend_from_slice(rest.as_bytes());
    let (_, frame) = parse_frame(&data).unwrap();
    assert_eq!(frame.command, b"MESSAGE");
    let headers_expect: Vec<(&[u8], &[u8])> = vec![
        (&b"destination"[..], &b"datafeeds.here.co.uk"[..]),
        (b"message-id", b"12345"),
        (b"subscription", b"some-id"),
        (b"empty-header", b""),
        (b"content-length", b"50"),
    ];
    let fh: Vec<_> = frame.headers.iter().map(|&(k, ref v)| (k, &**v)).collect();
    assert_eq!(fh, headers_expect);
    assert_eq!(frame.body, Some(body.as_bytes()));
    frame.to_server_msg().unwrap();
}
