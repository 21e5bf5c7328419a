//! The client's side of a connection: the codec that turns the bytes of a
//! transport into messages and messages into bytes, the handshake that
//! opens a session, and a shorthand for subscribing.

use crate::buffer::{buffer_advance, buffer_bytes, buffer_slice};
use crate::error::StompError;
use crate::frame::Headers;
use crate::parser::{parse, parse_frame, Parsed};
use crate::serializer::wire;
use crate::taxonomy::{decode_server, encode_frame};
use crate::{
    opt_text, FromServer, FromServerView, Message, MessageView, ToServer, ToServerView,
};
use bytes::BytesMut;
use vstd::prelude::*;
use vstd::string::*;

verus! {

/// Convenience function to build a Subscribe message
pub fn subscribe(dest: &str, id: &str) -> (r: Message<ToServer>)
    ensures
        r@ == (MessageView {
            content: ToServerView::Subscribe { destination: dest@, id: id@, ack: None },
            extra_headers: Headers::empty(),
        }),
{
    let message = Message::from(
        ToServer::Subscribe {
            destination: String::from_str(dest),
            id: String::from_str(id),
            ack: None,
        },
    );
    assert(message@.extra_headers =~= Headers::empty());
    message
}

/// What `decode` leaves in a buffer that held `s`: a frame at the front is
/// taken out, with the heart-beats around it; anything else stays.
pub open spec fn left_by_decode(s: Seq<u8>) -> Seq<u8> {
    match parse(s) {
        Parsed::Complete { frame, consumed } => s.skip(consumed),
        _ => s,
    }
}

/// What `decode` makes of a buffer that holds `s`: no message while the
/// first frame is incomplete, the message of the first frame once it is
/// there, and an error where the bytes are no frame or the frame is no
/// message from a server.
pub open spec fn decoded(s: Seq<u8>) -> Result<Option<MessageView<FromServerView>>, StompError> {
    match parse(s) {
        Parsed::Incomplete => Ok(None),
        Parsed::Malformed => Err(StompError::MalformedFrame),
        Parsed::Complete { frame, consumed } => match decode_server(frame) {
            Ok(m) => Ok(Some(m)),
            Err(e) => Err(e),
        },
    }
}

/// The codec of a client: it reads messages from the server and writes
/// messages to it. It keeps nothing between calls.
#[derive(Debug, Clone, Copy)]
pub struct ClientCodec;

impl ClientCodec {
    /// Takes the next message out of the buffer, if a whole frame is there.
    /// A buffer that holds only part of a frame is left untouched and gives
    /// `Ok(None)`; a frame that is read leaves the buffer even where it is
    /// no message.
    pub fn decode(&mut self, src: &mut BytesMut) -> (r: Result<
        Option<Message<FromServer>>,
        StompError,
    >)
        ensures
            buffer_bytes(*final(src)) == left_by_decode(buffer_bytes(*old(src))),
            match r {
                Ok(Some(m)) => decoded(buffer_bytes(*old(src))) == Ok::<
                    Option<MessageView<FromServerView>>,
                    StompError,
                >(Some(m@)),
                Ok(None) => decoded(buffer_bytes(*old(src))) == Ok::<
                    Option<MessageView<FromServerView>>,
                    StompError,
                >(None),
                Err(e) => decoded(buffer_bytes(*old(src))) == Err::<
                    Option<MessageView<FromServerView>>,
                    StompError,
                >(e),
            },
    {
        let input: &[u8] = buffer_slice(src);
        let (item, offset) = match parse_frame(input) {
            Ok((remain, frame)) => (frame.to_server_msg(), input.len() - remain.len()),
            Err(StompError::Incomplete) => { return Ok(None); },
            Err(e) => { return Err(e); },
        };
        buffer_advance(src, offset);
        match item {
            Ok(m) => Ok(Some(m)),
            Err(e) => Err(e),
        }
    }

    /// Appends the frame of a message to the buffer. The message's extra
    /// headers are not sent. The bytes to come must not take the buffer
    /// past the largest length that a buffer can have.
    pub fn encode(&mut self, item: Message<ToServer>, dst: &mut BytesMut) -> (r: Result<
        (),
        StompError,
    >)
        requires
            buffer_bytes(*old(dst)).len() + wire(encode_frame(item@.content)).len()
                <= isize::MAX,
        ensures
            r is Ok,
            buffer_bytes(*final(dst)) == buffer_bytes(*old(dst)) + wire(
                encode_frame(item@.content),
            ),
    {
        item.to_frame().serialize(dst);
        Ok(())
    }

    /// As `encode`, for any buffer. Where the frame's bytes would take the
    /// buffer past the largest length that a buffer can have, nothing is
    /// written and the message is handed back.
    pub fn try_encode(&mut self, item: Message<ToServer>, dst: &mut BytesMut) -> (r: Result<
        (),
        Message<ToServer>,
    >)
        ensures
            buffer_bytes(*old(dst)).len() + wire(encode_frame(item@.content)).len() <= isize::MAX
                ==> r is Ok && buffer_bytes(*final(dst)) == buffer_bytes(*old(dst)) + wire(
                encode_frame(item@.content),
            ),
            buffer_bytes(*old(dst)).len() + wire(encode_frame(item@.content)).len() > isize::MAX
                ==> r == Err::<(), Message<ToServer>>(item) && buffer_bytes(*final(dst))
                == buffer_bytes(*old(dst)),
    {
        let fits: bool = item.to_frame().fits(dst);
        if fits {
            item.to_frame().serialize(dst);
            Ok(())
        } else {
            Err(item)
        }
    }
}

/// Where a connection stands.
#[derive(Debug, Clone, Copy, PartialEq, Eq)]
pub enum ConnectionState {
    /// The connection request is sent and its answer awaited.
    Handshaking,
    /// The server has accepted the connection; messages flow.
    Established,
}

/// The message that opens a session: protocol version 1.2, the host, the
/// credentials if there are any, and no heart-beat.
pub fn handshake_request(host: String, login: Option<String>, passcode: Option<String>) -> (r:
    Message<ToServer>)
    ensures
        r@ == (MessageView {
            content: ToServerView::Connect {
                accept_version: "1.2"@,
                host: host@,
                login: opt_text(login),
                passcode: opt_text(passcode),
                heartbeat: None,
            },
            extra_headers: Headers::empty(),
        }),
{
    let message = Message {
        content: ToServer::Connect {
            accept_version: String::from_str("1.2"),
            host,
            login,
            passcode,
            heartbeat: None,
        },
        extra_headers: Vec::new(),
    };
    assert(message@.extra_headers =~= Headers::empty());
    message
}

/// Does the message accept a connection?
pub open spec fn accepts(reply: Option<MessageView<FromServerView>>) -> bool {
    reply matches Some(m) && m.content is Connected
}

/// The view of an optional message.
pub open spec fn opt_message(reply: Option<&Message<FromServer>>) -> Option<
    MessageView<FromServerView>,
> {
    match reply {
        Some(m) => Some(m@),
        None => None,
    }
}

/// The step that a connection takes on the first thing that arrives after
/// the connection request: `reply` is the message that came, or `None`
/// where the transport ended. While handshaking, `CONNECTED` establishes the
/// connection and anything else fails the handshake. An established
/// connection stays so.
pub fn handshake_reply(state: ConnectionState, reply: Option<&Message<FromServer>>) -> (r: Result<
    ConnectionState,
    StompError,
>)
    ensures
        state is Established || accepts(opt_message(reply)) ==> r == Ok::<
            ConnectionState,
            StompError,
        >(ConnectionState::Established),
        state is Handshaking && !accepts(opt_message(reply)) ==> r == Err::<
            ConnectionState,
            StompError,
        >(StompError::HandshakeFailed),
{
    match state {
        ConnectionState::Established => Ok(ConnectionState::Established),
        ConnectionState::Handshaking => match reply {
            Some(m) => match &m.content {
                FromServer::Connected { .. } => Ok(ConnectionState::Established),
                _ => Err(StompError::HandshakeFailed),
            },
            None => Err(StompError::HandshakeFailed),
        },
    }
}

} // verus!
