use bytes::{BufMut, BytesMut};
use tokio_stomp::client::{
    handshake_reply, handshake_request, subscribe, ClientCodec, ConnectionState,
};
use tokio_stomp::error::StompError;
use tokio_stomp::{pretty_bytes, FromServer, Message, ToServer};

fn s(text: &str) -> String {
    text.to_string()
}

#[test]
fn subscribe_builds_a_subscribe_message() {
    let m = subscribe("/queue/a", "sub-0");
    assert_eq!(
        m.content,
        ToServer::Subscribe { destination: s("/queue/a"), id: s("sub-0"), ack: None }
    );
    assert!(m.extra_headers.is_empty());
}

#[test]
fn decode_gives_nothing_for_an_empty_buffer() {
    let mut buffer = BytesMut::new();
    assert_eq!(ClientCodec.decode(&mut buffer), Ok(None));
    assert!(buffer.is_empty());
}

#[test]
fn decode_waits_for_the_whole_frame() {
    let whole = b"\nMESSAGE\ndestination:d\nmessage-id:1\nsubscription:s\ncontent-length:3\n\na\x00b\x00\n";
    let nul = whole.len() - 2;
    for cut in 0..=nul {
        let mut buffer = BytesMut::from(&whole[..cut]);
        assert_eq!(ClientCodec.decode(&mut buffer), Ok(None), "cut at {}", cut);
        assert_eq!(&buffer[..], &whole[..cut], "cut at {}", cut);
        assert_eq!(ClientCodec.decode(&mut buffer), Ok(None), "cut at {}", cut);
        assert_eq!(&buffer[..], &whole[..cut], "cut at {}", cut);
        buffer.put_slice(&whole[cut..]);
        let in_pieces = ClientCodec.decode(&mut buffer);
        let mut at_once = BytesMut::from(&whole[..]);
        assert_eq!(in_pieces, ClientCodec.decode(&mut at_once), "cut at {}", cut);
        assert_eq!(buffer, at_once);
        assert!(buffer.is_empty());
        match in_pieces {
            Ok(Some(m)) => assert_eq!(
                m.content,
                FromServer::Message {
                    destination: s("d"),
                    message_id: s("1"),
                    subscription: s("s"),
                    body: Some(b"a\x00b".to_vec()),
                }
            ),
            other => panic!("{:?}", other),
        }
    }
}

#[test]
fn decode_gives_the_announced_body_whole() {
    let bodies: Vec<Vec<u8>> = vec![
        Vec::new(),
        b"\x00".to_vec(),
        b"\n\n\x00\r\n\x00\x00".to_vec(),
        (0..=255u8).collect(),
        vec![0u8; 5000],
    ];
    for body in bodies {
        let mut wire = format!(
            "MESSAGE\ndestination:d\nmessage-id:1\nsubscription:s\ncontent-length:{}\n\n",
            body.len()
        )
        .into_bytes();
        wire.extend_from_slice(&body);
        wire.push(0);
        let mut buffer = BytesMut::from(&wire[..]);
        let m = ClientCodec.decode(&mut buffer).unwrap().unwrap();
        assert_eq!(
            m.content,
            FromServer::Message {
                destination: s("d"),
                message_id: s("1"),
                subscription: s("s"),
                body: Some(body.clone()),
            }
        );
        assert_eq!(
            m.extra_headers,
            vec![(b"content-length".to_vec(), body.len().to_string().into_bytes())]
        );
        assert!(buffer.is_empty());
    }
}

#[test]
fn decode_takes_one_frame_at_a_time() {
    let mut buffer = BytesMut::from(
        &b"RECEIPT\nreceipt-id:1\n\n\x00\n\nRECEIPT\nreceipt-id:2\n\n\x00RECEIPT\nrec"[..],
    );
    let first = ClientCodec.decode(&mut buffer).unwrap().unwrap();
    assert_eq!(first.content, FromServer::Receipt { receipt_id: s("1") });
    assert_eq!(&buffer[..], b"RECEIPT\nreceipt-id:2\n\n\x00RECEIPT\nrec");
    let second = ClientCodec.decode(&mut buffer).unwrap().unwrap();
    assert_eq!(second.content, FromServer::Receipt { receipt_id: s("2") });
    assert_eq!(&buffer[..], b"RECEIPT\nrec");
    assert_eq!(ClientCodec.decode(&mut buffer), Ok(None));
    assert_eq!(&buffer[..], b"RECEIPT\nrec");
}

#[test]
fn decode_fails_on_a_malformed_frame() {
    let mut buffer = BytesMut::from(&b"RECEIPT\nno colon\n\n\x00"[..]);
    assert_eq!(ClientCodec.decode(&mut buffer), Err(StompError::MalformedFrame));
    assert_eq!(&buffer[..], b"RECEIPT\nno colon\n\n\x00");
}

#[test]
fn decode_fails_on_a_frame_that_is_no_server_message() {
    let mut buffer = BytesMut::from(&b"SEND\ndestination:d\n\n\x00next"[..]);
    assert_eq!(ClientCodec.decode(&mut buffer), Err(StompError::UnrecognizedCommand));
    assert_eq!(&buffer[..], b"next");
    let mut buffer = BytesMut::from(&b"MESSAGE\ndestination:d\n\n\x00next"[..]);
    assert_eq!(ClientCodec.decode(&mut buffer), Err(StompError::MissingHeader("message-id")));
    assert_eq!(&buffer[..], b"next");
}

#[test]
fn encode_appends_the_frame_and_drops_extra_headers() {
    let mut buffer = BytesMut::from(&b"x"[..]);
    let message = Message {
        content: ToServer::Send {
            destination: s("/queue/a"),
            transaction: None,
            body: Some(b"hi".to_vec()),
        },
        extra_headers: vec![(b"x-extra".to_vec(), b"1".to_vec())],
    };
    assert_eq!(ClientCodec.encode(message, &mut buffer), Ok(()));
    assert_eq!(&buffer[..], b"xSEND\ndestination:/queue/a\ncontent-length:2\n\nhi\x00");
    assert_eq!(ClientCodec.encode(subscribe("d", "1"), &mut buffer), Ok(()));
    assert_eq!(
        &buffer[..],
        &b"xSEND\ndestination:/queue/a\ncontent-length:2\n\nhi\x00SUBSCRIBE\ndestination:d\nid:1\n\n\x00"[..]
    );
}

#[test]
fn try_encode_appends_where_the_frame_fits() {
    let mut buffer = BytesMut::from(&b"x"[..]);
    assert_eq!(ClientCodec.try_encode(subscribe("d", "1"), &mut buffer), Ok(()));
    assert_eq!(&buffer[..], b"xSUBSCRIBE\ndestination:d\nid:1\n\n\x00");
}

#[test]
fn handshake_request_is_a_connect_for_version_1_2() {
    let m = handshake_request(s("example.org"), Some(s("me")), Some(s("secret")));
    assert_eq!(
        m.content,
        ToServer::Connect {
            accept_version: s("1.2"),
            host: s("example.org"),
            login: Some(s("me")),
            passcode: Some(s("secret")),
            heartbeat: None,
        }
    );
    assert!(m.extra_headers.is_empty());
    let mut buffer = BytesMut::new();
    ClientCodec.encode(handshake_request(s("h"), None, None), &mut buffer).unwrap();
    assert_eq!(&buffer[..], b"CONNECT\naccept-version:1.2\nhost:h\n\n\x00");
}

#[test]
fn handshake_is_established_by_connected() {
    let mut buffer = BytesMut::from(&b"CONNECTED\nversion:1.2\n\n\x00"[..]);
    let reply = ClientCodec.decode(&mut buffer).unwrap();
    assert_eq!(
        handshake_reply(ConnectionState::Handshaking, reply.as_ref()),
        Ok(ConnectionState::Established)
    );
}

#[test]
fn handshake_fails_on_error_frame() {
    let mut buffer = BytesMut::from(&b"ERROR\nmessage:bad login\n\n\x00"[..]);
    let reply = ClientCodec.decode(&mut buffer).unwrap();
    assert!(matches!(reply.as_ref().map(|m| &m.content), Some(FromServer::Error { .. })));
    assert_eq!(
        handshake_reply(ConnectionState::Handshaking, reply.as_ref()),
        Err(StompError::HandshakeFailed)
    );
}

#[test]
fn handshake_fails_on_any_other_reply_or_none() {
    let replies = vec![
        FromServer::Receipt { receipt_id: s("1") },
        FromServer::Message {
            destination: s("d"),
            message_id: s("1"),
            subscription: s("s"),
            body: None,
        },
        FromServer::Error { message: None, body: None },
    ];
    for content in replies {
        let m = Message { content, extra_headers: vec![] };
        assert_eq!(
            handshake_reply(ConnectionState::Handshaking, Some(&m)),
            Err(StompError::HandshakeFailed)
        );
    }
    assert_eq!(
        handshake_reply(ConnectionState::Handshaking, None),
        Err(StompError::HandshakeFailed)
    );
}

#[test]
fn established_connection_stays_established() {
    let m = Message { content: FromServer::Error { message: None, body: None }, extra_headers: vec![] };
    assert_eq!(
        handshake_reply(ConnectionState::Established, Some(&m)),
        Ok(ConnectionState::Established)
    );
    assert_eq!(
        handshake_reply(ConnectionState::Established, None),
        Ok(ConnectionState::Established)
    );
}

#[test]
fn pretty_bytes_shows_text_or_none() {
    assert_eq!(pretty_bytes(&None), "None");
    assert_eq!(pretty_bytes(&Some(b"hello".to_vec())), "hello");
    assert_eq!(pretty_bytes(&Some(Vec::new())), "");
    assert_eq!(pretty_bytes(&Some("gr\u{fc}\u{df}e".as_bytes().to_vec())), "gr\u{fc}\u{df}e");
    assert_eq!(pretty_bytes(&Some(b"a\xffb".to_vec())), "a\u{fffd}b");
}

#[test]
fn errors_describe_themselves() {
    assert_eq!(StompError::Incomplete.describe(), "Frame incomplete");
    assert_eq!(StompError::MalformedFrame.describe(), "Parse failed");
    assert_eq!(StompError::UnrecognizedCommand.describe(), "Frame not recognized");
    assert_eq!(StompError::MissingHeader("host").describe(), "Expected header 'host' missing");
    assert_eq!(
        StompError::InvalidHeaderValue("ack").describe(),
        "Invalid value of header 'ack'"
    );
    assert_eq!(StompError::HandshakeFailed.describe(), "unexpected reply");
}

#[test]
fn only_incomplete_is_not_fatal() {
    assert!(!StompError::Incomplete.is_fatal());
    assert!(StompError::MalformedFrame.is_fatal());
    assert!(StompError::UnrecognizedCommand.is_fatal());
    assert!(StompError::MissingHeader("id").is_fatal());
    assert!(StompError::InvalidHeaderValue("ack").is_fatal());
    assert!(StompError::HandshakeFailed.is_fatal());
}
