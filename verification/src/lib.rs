//! A client-side codec for the STOMP messaging protocol: frames, the typed
//! messages they carry, and the connection handshake.

use vstd::prelude::*;
use vstd::string::*;

pub mod buffer;
pub mod client;
pub mod error;
pub mod escaping;
pub mod frame;
pub mod literals;
pub mod parser;
pub mod round_trip;
pub mod serializer;
pub mod taxonomy;
pub mod text;
pub mod truncation;
pub mod utf8;

use crate::error::StompError;
use crate::frame::{Frame, Headers};
use crate::taxonomy::{decode_client, decode_server, encode_frame};
use crate::text::{bytes_of, eq_ignore_ascii_case, eq_ignoring_case};
use crate::utf8::{lossy_text, string_from_utf8_lossy};
use vstd::std_specs::convert::FromSpecImpl;

verus! {

/// A representation of a STOMP frame
#[derive(Debug, PartialEq, Eq)]
pub struct Message<T> {
    /// The message content
    pub content: T,
    /// Headers present in the frame which were not required by the content
    pub extra_headers: Vec<(Vec<u8>, Vec<u8>)>,
}

/// What a `Message` holds: the view of its content, and its extra headers as
/// pairs of byte strings.
pub struct MessageView<C> {
    pub content: C,
    pub extra_headers: Headers,
}

impl<T: View> View for Message<T> {
    type V = MessageView<T::V>;

    open spec fn view(&self) -> MessageView<T::V> {
        MessageView { content: self.content@, extra_headers: owned_headers(self.extra_headers@) }
    }
}

/// The byte strings that a list of owned headers holds.
pub open spec fn owned_headers(headers: Seq<(Vec<u8>, Vec<u8>)>) -> Headers {
    headers.map_values(|h: (Vec<u8>, Vec<u8>)| (h.0@, h.1@))
}

/// The characters of an optional string.
pub open spec fn opt_text(s: Option<String>) -> Option<Seq<char>> {
    match s {
        Some(t) => Some(t@),
        None => None,
    }
}

/// The bytes of an optional body.
pub open spec fn opt_bytes(b: Option<Vec<u8>>) -> Option<Seq<u8>> {
    match b {
        Some(v) => Some(v@),
        None => None,
    }
}

/// The text that `pretty_bytes` gives for an optional body.
pub open spec fn pretty_text(b: Option<Seq<u8>>) -> Seq<char> {
    match b {
        Some(v) => lossy_text(v),
        None => "None"@,
    }
}

/// A body as text for a log line: its bytes read as UTF-8 with every
/// ill-formed sequence replaced, or `None` where there is no body.
pub fn pretty_bytes(b: &Option<Vec<u8>>) -> (r: String)
    ensures
        r@ == pretty_text(opt_bytes(*b)),
        b matches Some(v) ==> (vstd::utf8::valid_utf8(v@) ==> r@ == vstd::utf8::decode_utf8(v@)),
{
    match b {
        Some(v) => string_from_utf8_lossy(v.as_slice()),
        None => String::from_str("None"),
    }
}

/// A STOMP message sent from the server
#[derive(Debug, Clone, PartialEq, Eq)]
pub enum FromServer {
    /// The server accepted the connection request
    Connected {
        version: String,
        session: Option<String>,
        server: Option<String>,
        heartbeat: Option<String>,
    },
    /// Conveys messages from subscriptions to the client
    Message {
        destination: String,
        message_id: String,
        subscription: String,
        body: Option<Vec<u8>>,
    },
    /// Sent from the server to the client once a server has successfully
    /// processed a client frame that requests a receipt
    Receipt { receipt_id: String },
    /// Something went wrong. After sending an Error, the server will close the connection
    Error { message: Option<String>, body: Option<Vec<u8>> },
}

/// What a `FromServer` holds, text as characters and bodies as bytes.
pub enum FromServerView {
    Connected {
        version: Seq<char>,
        session: Option<Seq<char>>,
        server: Option<Seq<char>>,
        heartbeat: Option<Seq<char>>,
    },
    Message {
        destination: Seq<char>,
        message_id: Seq<char>,
        subscription: Seq<char>,
        body: Option<Seq<u8>>,
    },
    Receipt { receipt_id: Seq<char> },
    Error { message: Option<Seq<char>>, body: Option<Seq<u8>> },
}

impl View for FromServer {
    type V = FromServerView;

    open spec fn view(&self) -> FromServerView {
        match self {
            FromServer::Connected { version, session, server, heartbeat } => {
                FromServerView::Connected {
                    version: version@,
                    session: opt_text(*session),
                    server: opt_text(*server),
                    heartbeat: opt_text(*heartbeat),
                }
            },
            FromServer::Message { destination, message_id, subscription, body } => {
                FromServerView::Message {
                    destination: destination@,
                    message_id: message_id@,
                    subscription: subscription@,
                    body: opt_bytes(*body),
                }
            },
            FromServer::Receipt { receipt_id } => FromServerView::Receipt {
                receipt_id: receipt_id@,
            },
            FromServer::Error { message, body } => FromServerView::Error {
                message: opt_text(*message),
                body: opt_bytes(*body),
            },
        }
    }
}

/// The commands that a client sends.
#[derive(Debug, Copy, Clone, PartialEq, Eq)]
pub enum ToServerType {
    Connect,
    Send,
    Subscribe,
    Unsubscribe,
    Ack,
    Nack,
    Begin,
    Commit,
    Abort,
    Disconnect,
}

impl ToServerType {
    /// The command that a command line names, letters compared without
    /// regard to case. `STOMP` is another name of `CONNECT`.
    pub open spec fn of_command(c: Seq<u8>) -> Option<ToServerType> {
        if eq_ignoring_case(c, bytes_of("stomp")) || eq_ignoring_case(c, bytes_of("connect")) {
            Some(ToServerType::Connect)
        } else if eq_ignoring_case(c, bytes_of("send")) {
            Some(ToServerType::Send)
        } else if eq_ignoring_case(c, bytes_of("subscribe")) {
            Some(ToServerType::Subscribe)
        } else if eq_ignoring_case(c, bytes_of("unsubscribe")) {
            Some(ToServerType::Unsubscribe)
        } else if eq_ignoring_case(c, bytes_of("ack")) {
            Some(ToServerType::Ack)
        } else if eq_ignoring_case(c, bytes_of("nack")) {
            Some(ToServerType::Nack)
        } else if eq_ignoring_case(c, bytes_of("begin")) {
            Some(ToServerType::Begin)
        } else if eq_ignoring_case(c, bytes_of("commit")) {
            Some(ToServerType::Commit)
        } else if eq_ignoring_case(c, bytes_of("abort")) {
            Some(ToServerType::Abort)
        } else if eq_ignoring_case(c, bytes_of("disconnect")) {
            Some(ToServerType::Disconnect)
        } else {
            None
        }
    }

    /// Reads the command of a client frame.
    pub fn parse_from_bytes(b: &[u8]) -> (r: Option<ToServerType>)
        ensures
            r == Self::of_command(b@),
    {
        if eq_ignore_ascii_case(b, "stomp".as_bytes()) || eq_ignore_ascii_case(
            b,
            "connect".as_bytes(),
        ) {
            Some(ToServerType::Connect)
        } else if eq_ignore_ascii_case(b, "send".as_bytes()) {
            Some(ToServerType::Send)
        } else if eq_ignore_ascii_case(b, "subscribe".as_bytes()) {
            Some(ToServerType::Subscribe)
        } else if eq_ignore_ascii_case(b, "unsubscribe".as_bytes()) {
            Some(ToServerType::Unsubscribe)
        } else if eq_ignore_ascii_case(b, "ack".as_bytes()) {
            Some(ToServerType::Ack)
        } else if eq_ignore_ascii_case(b, "nack".as_bytes()) {
            Some(ToServerType::Nack)
        } else if eq_ignore_ascii_case(b, "begin".as_bytes()) {
            Some(ToServerType::Begin)
        } else if eq_ignore_ascii_case(b, "commit".as_bytes()) {
            Some(ToServerType::Commit)
        } else if eq_ignore_ascii_case(b, "abort".as_bytes()) {
            Some(ToServerType::Abort)
        } else if eq_ignore_ascii_case(b, "disconnect".as_bytes()) {
            Some(ToServerType::Disconnect)
        } else {
            None
        }
    }

    /// The headers that belong to a command's own fields. Any other header
    /// of a frame is an extra header.
    pub open spec fn schema(self) -> Seq<Seq<u8>> {
        match self {
            ToServerType::Connect => seq![
                bytes_of("accept-version"),
                bytes_of("host"),
                bytes_of("login"),
                bytes_of("passcode"),
                bytes_of("heart-beat"),
            ],
            ToServerType::Send => seq![bytes_of("destination"), bytes_of("transaction")],
            ToServerType::Subscribe => seq![
                bytes_of("destination"),
                bytes_of("id"),
                bytes_of("ack"),
            ],
            ToServerType::Unsubscribe => seq![bytes_of("id")],
            ToServerType::Ack | ToServerType::Nack => seq![bytes_of("id"), bytes_of("transaction")],
            ToServerType::Begin | ToServerType::Commit | ToServerType::Abort => seq![
                bytes_of("transaction"),
            ],
            ToServerType::Disconnect => seq![bytes_of("receipt")],
        }
    }

    /// The names of the headers that belong to the command's own fields.
    pub fn expected_headers(&self) -> (r: Vec<&'static [u8]>)
        ensures
            names_of(r@) == self.schema(),
    {
        let r: Vec<&'static [u8]> = match self {
            ToServerType::Connect => vec![
                "accept-version".as_bytes(),
                "host".as_bytes(),
                "login".as_bytes(),
                "passcode".as_bytes(),
                "heart-beat".as_bytes(),
            ],
            ToServerType::Send => vec!["destination".as_bytes(), "transaction".as_bytes()],
            ToServerType::Subscribe => vec![
                "destination".as_bytes(),
                "id".as_bytes(),
                "ack".as_bytes(),
            ],
            ToServerType::Unsubscribe => vec!["id".as_bytes()],
            ToServerType::Ack | ToServerType::Nack => vec![
                "id".as_bytes(),
                "transaction".as_bytes(),
            ],
            ToServerType::Begin | ToServerType::Commit | ToServerType::Abort => vec![
                "transaction".as_bytes(),
            ],
            ToServerType::Disconnect => vec!["receipt".as_bytes()],
        };
        assert(names_of(r@) =~= self.schema());
        r
    }
}

/// The byte strings that a list of names holds.
pub open spec fn names_of(names: Seq<&[u8]>) -> Seq<Seq<u8>> {
    names.map_values(|n: &[u8]| n@)
}

/// A STOMP message sent by the client.
#[derive(Debug, Clone, PartialEq, Eq)]
#[allow(inconsistent_fields)]
pub enum ToServer {
    /// Opens a session
    Connect {
        accept_version: String,
        host: String,
        login: Option<String>,
        passcode: Option<String>,
        heartbeat: Option<(u32, u32)>,
    },
    /// Send a message to a destination in the messaging system
    Send { destination: String, transaction: Option<String>, body: Option<Vec<u8>> },
    /// Register to listen to a given destination
    Subscribe { destination: String, id: String, ack: Option<AckMode> },
    /// Remove an existing subscription
    Unsubscribe { id: String },
    /// Acknowledge consumption of a message from a subscription using
    /// 'client' or 'client-individual' acknowledgment.
    Ack { id: String, transaction: Option<String> },
    /// Notify the server that the client did not consume the message
    Nack { id: String, transaction: Option<String> },
    /// Start a transaction
    Begin { transaction: String },
    /// Commit an in-progress transaction
    Commit { transaction: String },
    /// Roll back an in-progress transaction
    Abort { transaction: String },
    /// Gracefully disconnect from the server
    /// Clients MUST NOT send any more frames after the DISCONNECT frame is sent.
    Disconnect { receipt: Option<String> },
}

/// What a `ToServer` holds, text as characters and bodies as bytes.
#[allow(inconsistent_fields)]
pub enum ToServerView {
    Connect {
        accept_version: Seq<char>,
        host: Seq<char>,
        login: Option<Seq<char>>,
        passcode: Option<Seq<char>>,
        heartbeat: Option<(u32, u32)>,
    },
    Send { destination: Seq<char>, transaction: Option<Seq<char>>, body: Option<Seq<u8>> },
    Subscribe { destination: Seq<char>, id: Seq<char>, ack: Option<AckMode> },
    Unsubscribe { id: Seq<char> },
    Ack { id: Seq<char>, transaction: Option<Seq<char>> },
    Nack { id: Seq<char>, transaction: Option<Seq<char>> },
    Begin { transaction: Seq<char> },
    Commit { transaction: Seq<char> },
    Abort { transaction: Seq<char> },
    Disconnect { receipt: Option<Seq<char>> },
}

impl View for ToServer {
    type V = ToServerView;

    open spec fn view(&self) -> ToServerView {
        match self {
            ToServer::Connect { accept_version, host, login, passcode, heartbeat } => {
                ToServerView::Connect {
                    accept_version: accept_version@,
                    host: host@,
                    login: opt_text(*login),
                    passcode: opt_text(*passcode),
                    heartbeat: *heartbeat,
                }
            },
            ToServer::Send { destination, transaction, body } => ToServerView::Send {
                destination: destination@,
                transaction: opt_text(*transaction),
                body: opt_bytes(*body),
            },
            ToServer::Subscribe { destination, id, ack } => ToServerView::Subscribe {
                destination: destination@,
                id: id@,
                ack: *ack,
            },
            ToServer::Unsubscribe { id } => ToServerView::Unsubscribe { id: id@ },
            ToServer::Ack { id, transaction } => ToServerView::Ack {
                id: id@,
                transaction: opt_text(*transaction),
            },
            ToServer::Nack { id, transaction } => ToServerView::Nack {
                id: id@,
                transaction: opt_text(*transaction),
            },
            ToServer::Begin { transaction } => ToServerView::Begin { transaction: transaction@ },
            ToServer::Commit { transaction } => ToServerView::Commit { transaction: transaction@ },
            ToServer::Abort { transaction } => ToServerView::Abort { transaction: transaction@ },
            ToServer::Disconnect { receipt } => ToServerView::Disconnect {
                receipt: opt_text(*receipt),
            },
        }
    }
}

/// How a subscription wants its messages acknowledged.
#[derive(Debug, Clone, Copy, PartialEq, Eq)]
pub enum AckMode {
    Auto,
    Client,
    ClientIndividual,
}

impl Message<FromServer> {
    /// Reads a frame as a message from the server.
    pub fn from_frame(frame: Frame) -> (r: Result<Message<FromServer>, StompError>)
        ensures
            match r {
                Ok(m) => decode_server(frame@) == Ok::<MessageView<FromServerView>, StompError>(m@),
                Err(e) => decode_server(frame@) == Err::<MessageView<FromServerView>, StompError>(
                    e,
                ),
            },
    {
        frame.to_server_msg()
    }
}

impl Message<ToServer> {
    /// The frame that carries the message. Extra headers are left out.
    pub fn to_frame<'a>(&'a self) -> (r: Frame<'a>)
        ensures
            r@ == encode_frame(self@.content),
    {
        self.content.to_frame()
    }

    /// Reads a frame as a message from a client.
    pub fn from_frame(frame: Frame) -> (r: Result<Message<ToServer>, StompError>)
        ensures
            match r {
                Ok(m) => decode_client(frame@) == Ok::<MessageView<ToServerView>, StompError>(m@),
                Err(e) => decode_client(frame@) == Err::<MessageView<ToServerView>, StompError>(e),
            },
    {
        frame.to_client_msg()
    }
}

impl From<ToServer> for Message<ToServer> {
    /// A message with the given content and no extra headers.
    fn from(content: ToServer) -> (r: Message<ToServer>)
        ensures
            r.content == content,
            r.extra_headers@.len() == 0,
    {
        Message { content, extra_headers: Vec::new() }
    }
}

impl FromSpecImpl<ToServer> for Message<ToServer> {
    open spec fn obeys_from_spec() -> bool {
        false
    }

    open spec fn from_spec(content: ToServer) -> Message<ToServer> {
        arbitrary()
    }
}

} // verus!
