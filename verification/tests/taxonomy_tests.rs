use bytes::BytesMut;
use tokio_stomp::error::StompError;
use tokio_stomp::parser::parse_frame;
use tokio_stomp::{AckMode, FromServer, Message, ToServer, ToServerType};

fn bytes_of_message(content: &ToServer) -> Vec<u8> {
    let mut buffer = BytesMut::new();
    content.to_frame().serialize(&mut buffer);
    buffer.to_vec()
}

fn client_message(input: &[u8]) -> Result<Message<ToServer>, StompError> {
    let (_, frame) = parse_frame(input).unwrap();
    frame.to_client_msg()
}

fn server_message(input: &[u8]) -> Result<Message<FromServer>, StompError> {
    let (_, frame) = parse_frame(input).unwrap();
    frame.to_server_msg()
}

fn there_and_back(content: ToServer) -> Message<ToServer> {
    let wire = bytes_of_message(&content);
    let (rest, frame) = parse_frame(&wire).unwrap();
    assert!(rest.is_empty());
    frame.to_client_msg().unwrap()
}

fn s(text: &str) -> String {
    text.to_string()
}

fn pair(k: &str, v: &str) -> (Vec<u8>, Vec<u8>) {
    (k.as_bytes().to_vec(), v.as_bytes().to_vec())
}

#[test]
fn connect_is_written_byte_for_byte() {
    let content = ToServer::Connect {
        accept_version: s("1.2"),
        host: s("datafeeds.here.co.uk"),
        login: Some(s("user")),
        passcode: Some(s("password")),
        heartbeat: None,
    };
    assert_eq!(
        bytes_of_message(&content),
        b"CONNECT\naccept-version:1.2\nhost:datafeeds.here.co.uk\nlogin:user\npasscode:password\n\n\x00"
            .to_vec()
    );
}

#[test]
fn connect_with_heartbeat_is_written_and_read() {
    let content = ToServer::Connect {
        accept_version: s("1.2"),
        host: s("h"),
        login: None,
        passcode: None,
        heartbeat: Some((1000, 4294967295)),
    };
    assert_eq!(
        bytes_of_message(&content),
        b"CONNECT\naccept-version:1.2\nhost:h\nheart-beat:1000,4294967295\n\n\x00".to_vec()
    );
    let back = there_and_back(content.clone());
    assert_eq!(back.content, content);
    assert!(back.extra_headers.is_empty());
}

#[test]
fn every_kind_of_message_comes_back() {
    let messages = vec![
        ToServer::Connect {
            accept_version: s("1.2"),
            host: s("example.org"),
            login: Some(s("me")),
            passcode: None,
            heartbeat: Some((0, 0)),
        },
        ToServer::Connect {
            accept_version: s(""),
            host: s("gr\u{fc}\u{df}e \u{2603}"),
            login: None,
            passcode: Some(s("")),
            heartbeat: None,
        },
        ToServer::Disconnect { receipt: None },
        ToServer::Disconnect { receipt: Some(s("r-77")) },
        ToServer::Subscribe { destination: s("/queue/a"), id: s("0"), ack: None },
        ToServer::Subscribe { destination: s("/queue/a"), id: s("0"), ack: Some(AckMode::Auto) },
        ToServer::Subscribe { destination: s("/queue/a"), id: s("0"), ack: Some(AckMode::Client) },
        ToServer::Subscribe {
            destination: s("/queue/a"),
            id: s("0"),
            ack: Some(AckMode::ClientIndividual),
        },
        ToServer::Unsubscribe { id: s("sub-1") },
        ToServer::Send { destination: s("/queue/a"), transaction: None, body: None },
        ToServer::Send { destination: s("/queue/a"), transaction: Some(s("tx")), body: None },
        ToServer::Ack { id: s("m-1"), transaction: None },
        ToServer::Ack { id: s("m-1"), transaction: Some(s("tx")) },
        ToServer::Nack { id: s("m-1"), transaction: None },
        ToServer::Nack { id: s("m-1"), transaction: Some(s("tx")) },
        ToServer::Begin { transaction: s("tx") },
        ToServer::Commit { transaction: s("tx") },
        ToServer::Abort { transaction: s("tx") },
    ];
    for content in messages {
        let back = there_and_back(content.clone());
        assert_eq!(back.content, content);
        assert!(back.extra_headers.is_empty(), "{:?}", back);
    }
}

#[test]
fn send_with_body_comes_back_with_its_length_announced() {
    for body in [&b""[..], &b"hello"[..], &b"a\x00b\n\r\nc:\\"[..]] {
        let content = ToServer::Send {
            destination: s("/queue/a"),
            transaction: None,
            body: Some(body.to_vec()),
        };
        let back = there_and_back(content.clone());
        assert_eq!(back.content, content);
        assert_eq!(back.extra_headers, vec![pair("content-length", &body.len().to_string())]);
    }
}

#[test]
fn send_writes_its_transaction_under_its_own_key() {
    let content = ToServer::Send {
        destination: s("/q"),
        transaction: Some(s("tx1")),
        body: None,
    };
    let frame = content.to_frame();
    assert_eq!(frame.command, b"SEND");
    let headers: Vec<(&[u8], &[u8])> = frame.headers.iter().map(|&(k, ref v)| (k, &**v)).collect();
    assert_eq!(headers, vec![(&b"destination"[..], &b"/q"[..]), (&b"transaction"[..], &b"tx1"[..])]);
    assert_eq!(frame.body, None);
    assert_eq!(bytes_of_message(&content), b"SEND\ndestination:/q\ntransaction:tx1\n\n\x00".to_vec());
    let back = there_and_back(content.clone());
    assert_eq!(back.content, content);
    assert!(back.extra_headers.is_empty());
}

#[test]
fn send_with_transaction_and_body_comes_back() {
    let content = ToServer::Send {
        destination: s("/queue/a"),
        transaction: Some(s("tx-1")),
        body: Some(b"a\x00b".to_vec()),
    };
    assert_eq!(
        bytes_of_message(&content),
        b"SEND\ndestination:/queue/a\ntransaction:tx-1\ncontent-length:3\n\na\x00b\x00".to_vec()
    );
    let back = there_and_back(content.clone());
    assert_eq!(back.content, content);
    assert_eq!(back.extra_headers, vec![pair("content-length", "3")]);
}

#[test]
fn every_key_that_is_written_is_in_the_schema() {
    let messages = vec![
        (
            ToServerType::Connect,
            ToServer::Connect {
                accept_version: s("1.2"),
                host: s("h"),
                login: Some(s("l")),
                passcode: Some(s("p")),
                heartbeat: Some((1, 2)),
            },
        ),
        (
            ToServerType::Send,
            ToServer::Send { destination: s("d"), transaction: Some(s("t")), body: None },
        ),
        (
            ToServerType::Subscribe,
            ToServer::Subscribe { destination: s("d"), id: s("i"), ack: Some(AckMode::Auto) },
        ),
        (ToServerType::Unsubscribe, ToServer::Unsubscribe { id: s("i") }),
        (ToServerType::Ack, ToServer::Ack { id: s("i"), transaction: Some(s("t")) }),
        (ToServerType::Nack, ToServer::Nack { id: s("i"), transaction: Some(s("t")) }),
        (ToServerType::Begin, ToServer::Begin { transaction: s("t") }),
        (ToServerType::Commit, ToServer::Commit { transaction: s("t") }),
        (ToServerType::Abort, ToServer::Abort { transaction: s("t") }),
        (ToServerType::Disconnect, ToServer::Disconnect { receipt: Some(s("r")) }),
    ];
    for (kind, content) in messages {
        let frame = content.to_frame();
        assert_eq!(ToServerType::parse_from_bytes(frame.command), Some(kind));
        let schema = kind.expected_headers();
        let keys: Vec<&[u8]> = frame.headers.iter().map(|&(k, _)| k).collect();
        assert_eq!(keys, schema, "{:?}", kind);
    }
}

#[test]
fn escaped_text_does_not_come_back_as_it_went() {
    let content = ToServer::Unsubscribe { id: s("a:b") };
    assert_eq!(bytes_of_message(&content), b"UNSUBSCRIBE\nid:a\\cb\n\n\x00".to_vec());
    let back = there_and_back(content);
    assert_eq!(back.content, ToServer::Unsubscribe { id: s("a\\cb") });
}

#[test]
fn client_commands_are_read_in_any_case() {
    let cases: [(&[u8], ToServerType); 14] = [
        (b"stomp", ToServerType::Connect),
        (b"STOMP", ToServerType::Connect),
        (b"Connect", ToServerType::Connect),
        (b"sEnD", ToServerType::Send),
        (b"SUBSCRIBE", ToServerType::Subscribe),
        (b"unsubscribe", ToServerType::Unsubscribe),
        (b"Ack", ToServerType::Ack),
        (b"nAcK", ToServerType::Nack),
        (b"BEGIN", ToServerType::Begin),
        (b"commiT", ToServerType::Commit),
        (b"aborT", ToServerType::Abort),
        (b"DisConnect", ToServerType::Disconnect),
        (b"connect", ToServerType::Connect),
        (b"send", ToServerType::Send),
    ];
    for (command, kind) in cases {
        assert_eq!(ToServerType::parse_from_bytes(command), Some(kind));
    }
    for command in [&b""[..], b"CONNECTED", b"MESSAGE", b"sen", b"sendx", b" send", b"st\xf6mp"] {
        assert_eq!(ToServerType::parse_from_bytes(command), None);
    }
}

#[test]
fn expected_headers_are_the_schema_of_each_command() {
    let cases: Vec<(ToServerType, Vec<&[u8]>)> = vec![
        (
            ToServerType::Connect,
            vec![b"accept-version", b"host", b"login", b"passcode", b"heart-beat"],
        ),
        (ToServerType::Send, vec![b"destination", b"transaction"]),
        (ToServerType::Subscribe, vec![b"destination", b"id", b"ack"]),
        (ToServerType::Unsubscribe, vec![b"id"]),
        (ToServerType::Ack, vec![b"id", b"transaction"]),
        (ToServerType::Nack, vec![b"id", b"transaction"]),
        (ToServerType::Begin, vec![b"transaction"]),
        (ToServerType::Commit, vec![b"transaction"]),
        (ToServerType::Abort, vec![b"transaction"]),
        (ToServerType::Disconnect, vec![b"receipt"]),
    ];
    for (kind, expected) in cases {
        assert_eq!(kind.expected_headers(), expected);
    }
}

#[test]
fn stomp_frame_is_a_connect() {
    let m = client_message(b"stomp\naccept-version:1.1,1.2\nhost:h\nvendor:x\n\n\x00").unwrap();
    assert_eq!(
        m.content,
        ToServer::Connect {
            accept_version: s("1.1,1.2"),
            host: s("h"),
            login: None,
            passcode: None,
            heartbeat: None,
        }
    );
    assert_eq!(m.extra_headers, vec![pair("vendor", "x")]);
}

#[test]
fn unknown_client_command_is_not_recognized() {
    assert_eq!(client_message(b"MESSAGE\n\n\x00"), Err(StompError::UnrecognizedCommand));
    assert_eq!(client_message(b"HELLO\nid:1\n\n\x00"), Err(StompError::UnrecognizedCommand));
}

#[test]
fn missing_client_headers_are_named() {
    let cases: [(&[u8], &str); 14] = [
        (b"CONNECT\nhost:h\n\n\x00", "accept-version"),
        (b"CONNECT\naccept-version:1.2\n\n\x00", "host"),
        (b"CONNECT\n\n\x00", "accept-version"),
        (b"SEND\ntransaction:t\n\n\x00", "destination"),
        (b"SUBSCRIBE\nid:1\nack:maybe\n\n\x00", "destination"),
        (b"SUBSCRIBE\ndestination:d\nack:maybe\n\n\x00", "id"),
        (b"UNSUBSCRIBE\n\n\x00", "id"),
        (b"ACK\ntransaction:t\n\n\x00", "id"),
        (b"NACK\n\n\x00", "id"),
        (b"BEGIN\n\n\x00", "transaction"),
        (b"COMMIT\nid:1\n\n\x00", "transaction"),
        (b"ABORT\n\n\x00", "transaction"),
        (b"UNSUBSCRIBE\nid:\xff\n\n\x00", "id"),
        (b"UNSUBSCRIBE\nID:1\n\n\x00", "id"),
    ];
    for (input, name) in cases {
        match client_message(input) {
            Err(StompError::MissingHeader(got)) => assert_eq!(got, name),
            other => panic!("{:?} gave {:?}", input, other),
        }
    }
}

#[test]
fn invalid_ack_mode_is_rejected() {
    let input = b"SUBSCRIBE\ndestination:/queue/a\nid:0\nack:maybe\n\n\x00";
    assert_eq!(client_message(input), Err(StompError::InvalidHeaderValue("ack")));
    for value in ["", "Auto", "AUTO", "client ", "client_individual", "auto\r"] {
        let input = format!("SUBSCRIBE\ndestination:d\nid:0\nack:{}\r\n\n\x00", value);
        assert_eq!(
            client_message(input.as_bytes()),
            Err(StompError::InvalidHeaderValue("ack")),
            "{:?}",
            value
        );
    }
}

#[test]
fn valid_ack_modes_are_read() {
    for (value, mode) in [
        ("auto", AckMode::Auto),
        ("client", AckMode::Client),
        ("client-individual", AckMode::ClientIndividual),
    ] {
        let input = format!("SUBSCRIBE\ndestination:d\nid:0\nack:{}\n\n\x00", value);
        let m = client_message(input.as_bytes()).unwrap();
        assert_eq!(
            m.content,
            ToServer::Subscribe { destination: s("d"), id: s("0"), ack: Some(mode) }
        );
    }
}

#[test]
fn ack_that_is_not_text_is_rejected() {
    assert_eq!(
        client_message(b"SUBSCRIBE\ndestination:d\nid:0\nack:\xff\n\n\x00"),
        Err(StompError::InvalidHeaderValue("ack"))
    );
}

#[test]
fn first_ack_header_counts() {
    let m = client_message(b"SUBSCRIBE\ndestination:d\nid:0\nack:client\nack:maybe\n\n\x00")
        .unwrap();
    assert_eq!(
        m.content,
        ToServer::Subscribe { destination: s("d"), id: s("0"), ack: Some(AckMode::Client) }
    );
    assert_eq!(
        client_message(b"SUBSCRIBE\ndestination:d\nid:0\nack:maybe\nack:client\n\n\x00"),
        Err(StompError::InvalidHeaderValue("ack"))
    );
}

#[test]
fn invalid_heartbeat_is_rejected_first() {
    let input = b"CONNECT\nheart-beat:soon\n\n\x00";
    assert_eq!(client_message(input), Err(StompError::InvalidHeaderValue("heart-beat")));
    let input = b"CONNECT\naccept-version:1.2\nhost:h\nheart-beat:1;2\n\n\x00";
    assert_eq!(client_message(input), Err(StompError::InvalidHeaderValue("heart-beat")));
    let input = b"CONNECT\naccept-version:1.2\nhost:h\nheart-beat:1,\xff\n\n\x00";
    assert_eq!(client_message(input), Err(StompError::InvalidHeaderValue("heart-beat")));
}

#[test]
fn heartbeat_is_read_from_a_connect() {
    let m = client_message(b"CONNECT\naccept-version:1.2\nhost:h\nheart-beat:10,20\n\n\x00")
        .unwrap();
    assert_eq!(
        m.content,
        ToServer::Connect {
            accept_version: s("1.2"),
            host: s("h"),
            login: None,
            passcode: None,
            heartbeat: Some((10, 20)),
        }
    );
}

#[test]
fn extra_client_headers_are_kept_in_order() {
    let input = b"SEND\nx-first:1\ndestination:/q\ncontent-type:text/plain\ndestination:/other\nx-first:2\ntransaction:t\ncontent-length:2\n\nhi\x00";
    let m = client_message(input).unwrap();
    assert_eq!(
        m.content,
        ToServer::Send {
            destination: s("/q"),
            transaction: Some(s("t")),
            body: Some(b"hi".to_vec()),
        }
    );
    assert_eq!(
        m.extra_headers,
        vec![
            pair("x-first", "1"),
            pair("content-type", "text/plain"),
            pair("x-first", "2"),
            pair("content-length", "2"),
        ]
    );
}

#[test]
fn one_extra_header_is_kept_unchanged() {
    let m = server_message(b"RECEIPT\nreceipt-id:77\nx-vendor:\xffraw \\c bytes\n\n\x00").unwrap();
    assert_eq!(m.content, FromServer::Receipt { receipt_id: s("77") });
    assert_eq!(
        m.extra_headers,
        vec![(b"x-vendor".to_vec(), b"\xffraw \\c bytes".to_vec())]
    );
}

#[test]
fn server_commands_are_read_in_two_spellings_only() {
    for command in ["CONNECTED", "connected"] {
        let input = format!("{}\nversion:1.2\n\n\x00", command);
        assert!(server_message(input.as_bytes()).is_ok());
    }
    for command in ["MESSAGE", "message"] {
        let input = format!("{}\ndestination:d\nmessage-id:1\nsubscription:s\n\n\x00", command);
        assert!(server_message(input.as_bytes()).is_ok());
    }
    for command in ["RECEIPT", "receipt"] {
        let input = format!("{}\nreceipt-id:1\n\n\x00", command);
        assert!(server_message(input.as_bytes()).is_ok());
    }
    for command in ["ERROR", "error"] {
        let input = format!("{}\n\n\x00", command);
        assert!(server_message(input.as_bytes()).is_ok());
    }
    for command in ["Connected", "Message", "Receipt", "Error", "eRROR", "CONNECT", "SEND", "x"] {
        let input = format!("{}\nversion:1.2\nreceipt-id:1\n\n\x00", command);
        assert_eq!(
            server_message(input.as_bytes()),
            Err(StompError::UnrecognizedCommand),
            "{}",
            command
        );
    }
}

#[test]
fn connected_is_read_with_its_optional_headers() {
    let m = server_message(
        b"CONNECTED\nserver:broker/1\nversion:1.2\nheart-beat:0,0\nsession:abc\nextra:1\n\n\x00",
    )
    .unwrap();
    assert_eq!(
        m.content,
        FromServer::Connected {
            version: s("1.2"),
            session: Some(s("abc")),
            server: Some(s("broker/1")),
            heartbeat: Some(s("0,0")),
        }
    );
    assert_eq!(m.extra_headers, vec![pair("extra", "1")]);
    let m = server_message(b"connected\nversion:1.0\n\n\x00").unwrap();
    assert_eq!(
        m.content,
        FromServer::Connected { version: s("1.0"), session: None, server: None, heartbeat: None }
    );
}

#[test]
fn missing_server_headers_are_named() {
    let cases: [(&[u8], &str); 6] = [
        (b"CONNECTED\nsession:1\n\n\x00", "version"),
        (b"MESSAGE\nmessage-id:1\nsubscription:s\n\n\x00", "destination"),
        (b"MESSAGE\ndestination:d\nsubscription:s\n\n\x00", "message-id"),
        (b"MESSAGE\ndestination:d\nmessage-id:1\n\n\x00", "subscription"),
        (b"MESSAGE\n\n\x00", "destination"),
        (b"RECEIPT\nreceipt:1\n\n\x00", "receipt-id"),
    ];
    for (input, name) in cases {
        match server_message(input) {
            Err(StompError::MissingHeader(got)) => assert_eq!(got, name),
            other => panic!("{:?} gave {:?}", input, other),
        }
    }
}

#[test]
fn error_needs_no_header() {
    let m = server_message(b"ERROR\n\n\x00").unwrap();
    assert_eq!(m.content, FromServer::Error { message: None, body: None });
    let m = server_message(b"ERROR\nmessage:malformed frame\ncontent-length:4\n\noops\x00").unwrap();
    assert_eq!(
        m.content,
        FromServer::Error { message: Some(s("malformed frame")), body: Some(b"oops".to_vec()) }
    );
    assert_eq!(m.extra_headers, vec![pair("content-length", "4")]);
}

#[test]
fn message_is_read_with_its_body() {
    let m = server_message(
        b"MESSAGE\nsubscription:0\nmessage-id:007\ndestination:/queue/a\ncontent-type:text/plain\n\nhello queue a\x00",
    )
    .unwrap();
    assert_eq!(
        m.content,
        FromServer::Message {
            destination: s("/queue/a"),
            message_id: s("007"),
            subscription: s("0"),
            body: Some(b"hello queue a".to_vec()),
        }
    );
    assert_eq!(m.extra_headers, vec![pair("content-type", "text/plain")]);
}

#[test]
fn message_from_content_has_no_extra_headers() {
    let m = Message::from(ToServer::Begin { transaction: s("t") });
    assert_eq!(m.content, ToServer::Begin { transaction: s("t") });
    assert!(m.extra_headers.is_empty());
    let m: Message<ToServer> = ToServer::Disconnect { receipt: None }.into();
    assert!(m.extra_headers.is_empty());
}

#[test]
fn message_frame_conversions_agree_with_the_frame() {
    let input = b"BEGIN\ntransaction:t\nx:y\n\n\x00";
    let (_, frame) = parse_frame(input).unwrap();
    let m = Message::<ToServer>::from_frame(frame).unwrap();
    assert_eq!(m.content, ToServer::Begin { transaction: s("t") });
    assert_eq!(m.extra_headers, vec![pair("x", "y")]);
    let mut buffer = BytesMut::new();
    m.to_frame().serialize(&mut buffer);
    assert_eq!(&buffer[..], b"BEGIN\ntransaction:t\n\n\x00");
    let (_, frame) = parse_frame(b"RECEIPT\nreceipt-id:9\n\n\x00").unwrap();
    let m = Message::<FromServer>::from_frame(frame).unwrap();
    assert_eq!(m.content, FromServer::Receipt { receipt_id: s("9") });
}
