//! Between frames and typed messages: which frame a client message makes,
//! and which message, of either direction, a frame stands for.

use crate::error::StompError;
use crate::frame::{
    entry_views, expect_header, fetch_header, find_header, header_text, header_views,
    heartbeat_value, lookup, opt_slice, opt_value, present, read_heartbeat_value, required_text,
    value_bytes, Entries, Frame, FrameView, Headers,
};
use crate::text::{bytes_eq, bytes_of, decimal, push_decimal, COMMA};
use crate::{
    names_of, opt_bytes, opt_text, owned_headers, AckMode, FromServer, FromServerView, Message,
    MessageView, ToServer, ToServerType, ToServerView,
};
use std::borrow::Cow;
use vstd::prelude::*;
use vstd::slice::slice_to_vec;
use vstd::utf8::encode_utf8;

verus! {

/// Does a header lie outside a command's schema?
pub open spec fn outside(schema: Seq<Seq<u8>>) -> spec_fn((Seq<u8>, Seq<u8>)) -> bool {
    |h: (Seq<u8>, Seq<u8>)| !schema.contains(h.0)
}

/// The headers that lie outside a command's schema, in their order.
pub open spec fn extra_headers(headers: Headers, schema: Seq<Seq<u8>>) -> Headers {
    headers.filter(outside(schema))
}

/// Extra headers: a header of a frame is among the extra headers exactly
/// where its key lies outside the schema, with its key and value as they
/// are.
pub proof fn lemma_extra_header_kept(headers: Headers, schema: Seq<Seq<u8>>, i: int)
    requires
        0 <= i < headers.len(),
    ensures
        extra_headers(headers, schema).contains(headers[i]) <==> !schema.contains(headers[i].0),
{
    let keep = outside(schema);
    let extra = headers.filter(keep);
    if keep(headers[i]) {
        headers.lemma_filter_contains(keep, i);
    }
    if extra.contains(headers[i]) {
        let j = choose|j: int| 0 <= j < extra.len() && extra[j] == headers[i];
        headers.lemma_filter_pred(keep, j);
    }
}

/// Extra headers keep their place: the extra headers of a frame are those
/// of the headers before one header, then that header if its key lies
/// outside the schema, then those of the headers after it.
pub proof fn lemma_extra_header_in_place(
    before: Headers,
    h: (Seq<u8>, Seq<u8>),
    after: Headers,
    schema: Seq<Seq<u8>>,
)
    ensures
        extra_headers(before + seq![h] + after, schema) == extra_headers(before, schema)
            + extra_headers(seq![h], schema) + extra_headers(after, schema),
        extra_headers(seq![h], schema) == if schema.contains(h.0) {
            Headers::empty()
        } else {
            seq![h]
        },
{
    let keep = outside(schema);
    Seq::filter_distributes_over_add(before + seq![h], after, keep);
    Seq::filter_distributes_over_add(before, seq![h], keep);
    reveal_with_fuel(Seq::filter, 2);
    assert(seq![h].drop_last() =~= Headers::empty());
    assert(seq![h].last() == h);
    assert(seq![h].filter(keep) =~= if keep(h) {
        seq![h]
    } else {
        Headers::empty()
    });
}

/// The value that stands for an acknowledgement mode on the wire.
pub open spec fn ack_bytes(mode: AckMode) -> Seq<u8> {
    match mode {
        AckMode::Auto => bytes_of("auto"),
        AckMode::Client => bytes_of("client"),
        AckMode::ClientIndividual => bytes_of("client-individual"),
    }
}

/// The acknowledgement mode that a header value stands for.
pub open spec fn ack_mode_of(value: Seq<u8>) -> Option<AckMode> {
    if value == ack_bytes(AckMode::Auto) {
        Some(AckMode::Auto)
    } else if value == ack_bytes(AckMode::Client) {
        Some(AckMode::Client)
    } else if value == ack_bytes(AckMode::ClientIndividual) {
        Some(AckMode::ClientIndividual)
    } else {
        None
    }
}

/// The `ack` header of a frame: absent, one of the three modes, or an error
/// for any other value.
pub open spec fn ack_field(headers: Headers) -> Result<Option<AckMode>, StompError> {
    match lookup(headers, bytes_of("ack")) {
        Some(value) => match ack_mode_of(value) {
            Some(mode) => Ok(Some(mode)),
            None => Err(StompError::InvalidHeaderValue("ack")),
        },
        None => Ok(None),
    }
}

/// The `heart-beat` header of a frame: absent, a pair of numbers, or an
/// error for any other value.
pub open spec fn heartbeat_field(headers: Headers) -> Result<Option<(u32, u32)>, StompError> {
    match lookup(headers, bytes_of("heart-beat")) {
        Some(value) => match heartbeat_value(value) {
            Some(pair) => Ok(Some(pair)),
            None => Err(StompError::InvalidHeaderValue("heart-beat")),
        },
        None => Ok(None),
    }
}

/// The `CONNECT` message that a frame's headers make. A malformed
/// heart-beat is reported before a missing header, a missing
/// `accept-version` before a missing `host`.
pub open spec fn connect_content(h: Headers) -> Result<ToServerView, StompError> {
    match heartbeat_field(h) {
        Err(e) => Err(e),
        Ok(heartbeat) => match required_text(h, "accept-version") {
            Err(e) => Err(e),
            Ok(accept_version) => match required_text(h, "host") {
                Err(e) => Err(e),
                Ok(host) => Ok(
                    ToServerView::Connect {
                        accept_version,
                        host,
                        login: header_text(h, bytes_of("login")),
                        passcode: header_text(h, bytes_of("passcode")),
                        heartbeat,
                    },
                ),
            },
        },
    }
}

/// The `SUBSCRIBE` message that a frame's headers make. A missing
/// `destination` is reported before a missing `id`, and that before an
/// invalid `ack`.
pub open spec fn subscribe_content(h: Headers) -> Result<ToServerView, StompError> {
    match required_text(h, "destination") {
        Err(e) => Err(e),
        Ok(destination) => match required_text(h, "id") {
            Err(e) => Err(e),
            Ok(id) => match ack_field(h) {
                Err(e) => Err(e),
                Ok(ack) => Ok(ToServerView::Subscribe { destination, id, ack }),
            },
        },
    }
}

/// The content of the client message that a frame stands for, given its
/// command.
pub open spec fn client_content(kind: ToServerType, f: FrameView) -> Result<
    ToServerView,
    StompError,
> {
    let h = f.headers;
    match kind {
        ToServerType::Connect => connect_content(h),
        ToServerType::Disconnect => Ok(
            ToServerView::Disconnect { receipt: header_text(h, bytes_of("receipt")) },
        ),
        ToServerType::Send => match required_text(h, "destination") {
            Err(e) => Err(e),
            Ok(destination) => Ok(
                ToServerView::Send {
                    destination,
                    transaction: header_text(h, bytes_of("transaction")),
                    body: f.body,
                },
            ),
        },
        ToServerType::Subscribe => subscribe_content(h),
        ToServerType::Unsubscribe => match required_text(h, "id") {
            Err(e) => Err(e),
            Ok(id) => Ok(ToServerView::Unsubscribe { id }),
        },
        ToServerType::Ack => match required_text(h, "id") {
            Err(e) => Err(e),
            Ok(id) => Ok(
                ToServerView::Ack { id, transaction: header_text(h, bytes_of("transaction")) },
            ),
        },
        ToServerType::Nack => match required_text(h, "id") {
            Err(e) => Err(e),
            Ok(id) => Ok(
                ToServerView::Nack { id, transaction: header_text(h, bytes_of("transaction")) },
            ),
        },
        ToServerType::Begin => match required_text(h, "transaction") {
            Err(e) => Err(e),
            Ok(transaction) => Ok(ToServerView::Begin { transaction }),
        },
        ToServerType::Commit => match required_text(h, "transaction") {
            Err(e) => Err(e),
            Ok(transaction) => Ok(ToServerView::Commit { transaction }),
        },
        ToServerType::Abort => match required_text(h, "transaction") {
            Err(e) => Err(e),
            Ok(transaction) => Ok(ToServerView::Abort { transaction }),
        },
    }
}

/// The client message that a frame stands for. The command is read without
/// regard to case; a required header that is absent, or an `ack` or
/// `heart-beat` that cannot be read, is an error; every header outside the
/// command's schema is kept as an extra header.
pub open spec fn decode_client(f: FrameView) -> Result<MessageView<ToServerView>, StompError> {
    match ToServerType::of_command(f.command) {
        None => Err(StompError::UnrecognizedCommand),
        Some(kind) => match client_content(kind, f) {
            Err(e) => Err(e),
            Ok(content) => Ok(
                MessageView { content, extra_headers: extra_headers(f.headers, kind.schema()) },
            ),
        },
    }
}

/// The bytes of an optional text.
pub open spec fn opt_encoded(t: Option<Seq<char>>) -> Option<Seq<u8>> {
    match t {
        Some(s) => Some(encode_utf8(s)),
        None => None,
    }
}

/// The header value that writes a pair of heart-beat numbers: `<n>,<m>`.
pub open spec fn heartbeat_bytes(pair: (u32, u32)) -> Seq<u8> {
    decimal(pair.0 as nat) + seq![COMMA] + decimal(pair.1 as nat)
}

/// The header value of an optional pair of heart-beat numbers.
pub open spec fn opt_heartbeat(heartbeat: Option<(u32, u32)>) -> Option<Seq<u8>> {
    match heartbeat {
        Some(pair) => Some(heartbeat_bytes(pair)),
        None => None,
    }
}

/// The header value of an optional acknowledgement mode.
pub open spec fn opt_ack(ack: Option<AckMode>) -> Option<Seq<u8>> {
    match ack {
        Some(mode) => Some(ack_bytes(mode)),
        None => None,
    }
}

/// The command that a client writes for a kind of message.
pub open spec fn command_of(kind: ToServerType) -> Seq<u8> {
    match kind {
        ToServerType::Connect => bytes_of("CONNECT"),
        ToServerType::Send => bytes_of("SEND"),
        ToServerType::Subscribe => bytes_of("SUBSCRIBE"),
        ToServerType::Unsubscribe => bytes_of("UNSUBSCRIBE"),
        ToServerType::Ack => bytes_of("ACK"),
        ToServerType::Nack => bytes_of("NACK"),
        ToServerType::Begin => bytes_of("BEGIN"),
        ToServerType::Commit => bytes_of("COMMIT"),
        ToServerType::Abort => bytes_of("ABORT"),
        ToServerType::Disconnect => bytes_of("DISCONNECT"),
    }
}

/// The kind of a client message.
pub open spec fn kind_of(m: ToServerView) -> ToServerType {
    match m {
        ToServerView::Connect { .. } => ToServerType::Connect,
        ToServerView::Send { .. } => ToServerType::Send,
        ToServerView::Subscribe { .. } => ToServerType::Subscribe,
        ToServerView::Unsubscribe { .. } => ToServerType::Unsubscribe,
        ToServerView::Ack { .. } => ToServerType::Ack,
        ToServerView::Nack { .. } => ToServerType::Nack,
        ToServerView::Begin { .. } => ToServerType::Begin,
        ToServerView::Commit { .. } => ToServerType::Commit,
        ToServerView::Abort { .. } => ToServerType::Abort,
        ToServerView::Disconnect { .. } => ToServerType::Disconnect,
    }
}

/// The fields of a client message as headers: the keys of its command's
/// schema, in order, each with the value that is written for its field if
/// the field has one.
pub open spec fn entries_of(m: ToServerView) -> Entries {
    match m {
        ToServerView::Connect { accept_version, host, login, passcode, heartbeat } => seq![
            (bytes_of("accept-version"), Some(encode_utf8(accept_version))),
            (bytes_of("host"), Some(encode_utf8(host))),
            (bytes_of("login"), opt_encoded(login)),
            (bytes_of("passcode"), opt_encoded(passcode)),
            (bytes_of("heart-beat"), opt_heartbeat(heartbeat)),
        ],
        ToServerView::Send { destination, transaction, body } => seq![
            (bytes_of("destination"), Some(encode_utf8(destination))),
            (bytes_of("transaction"), opt_encoded(transaction)),
        ],
        ToServerView::Subscribe { destination, id, ack } => seq![
            (bytes_of("destination"), Some(encode_utf8(destination))),
            (bytes_of("id"), Some(encode_utf8(id))),
            (bytes_of("ack"), opt_ack(ack)),
        ],
        ToServerView::Unsubscribe { id } => seq![(bytes_of("id"), Some(encode_utf8(id)))],
        ToServerView::Ack { id, transaction } => seq![
            (bytes_of("id"), Some(encode_utf8(id))),
            (bytes_of("transaction"), opt_encoded(transaction)),
        ],
        ToServerView::Nack { id, transaction } => seq![
            (bytes_of("id"), Some(encode_utf8(id))),
            (bytes_of("transaction"), opt_encoded(transaction)),
        ],
        ToServerView::Begin { transaction } => seq![
            (bytes_of("transaction"), Some(encode_utf8(transaction))),
        ],
        ToServerView::Commit { transaction } => seq![
            (bytes_of("transaction"), Some(encode_utf8(transaction))),
        ],
        ToServerView::Abort { transaction } => seq![
            (bytes_of("transaction"), Some(encode_utf8(transaction))),
        ],
        ToServerView::Disconnect { receipt } => seq![(bytes_of("receipt"), opt_encoded(receipt))],
    }
}

/// The body that a client message carries: that of a `SEND`.
pub open spec fn body_of(m: ToServerView) -> Option<Seq<u8>> {
    match m {
        ToServerView::Send { destination, transaction, body } => body,
        _ => None,
    }
}

/// The frame that a client message makes: the command of its kind, in
/// upper case, the headers of its fields, those without a value left out,
/// and the body of a `SEND` as it is. Each field is written under the key
/// that the command's schema has for it.
pub open spec fn encode_frame(m: ToServerView) -> FrameView {
    FrameView {
        command: command_of(kind_of(m)),
        headers: present(entries_of(m)),
        body: body_of(m),
    }
}

/// Is the command one of the two spellings, all upper case or all lower
/// case?
pub open spec fn spelled(command: Seq<u8>, upper: &str, lower: &str) -> bool {
    command == bytes_of(upper) || command == bytes_of(lower)
}

/// The headers that belong to the fields of a `CONNECTED` frame.
pub open spec fn connected_schema() -> Seq<Seq<u8>> {
    seq![bytes_of("version"), bytes_of("session"), bytes_of("server"), bytes_of("heart-beat")]
}

/// The headers that belong to the fields of a `MESSAGE` frame.
pub open spec fn message_schema() -> Seq<Seq<u8>> {
    seq![bytes_of("destination"), bytes_of("message-id"), bytes_of("subscription")]
}

/// The headers that belong to the fields of a `RECEIPT` frame.
pub open spec fn receipt_schema() -> Seq<Seq<u8>> {
    seq![bytes_of("receipt-id")]
}

/// The headers that belong to the fields of an `ERROR` frame.
pub open spec fn error_schema() -> Seq<Seq<u8>> {
    seq![bytes_of("message")]
}

/// The `MESSAGE` content that a frame makes. A missing `destination` is
/// reported before a missing `message-id`, and that before a missing
/// `subscription`.
pub open spec fn message_content(f: FrameView) -> Result<FromServerView, StompError> {
    let h = f.headers;
    match required_text(h, "destination") {
        Err(e) => Err(e),
        Ok(destination) => match required_text(h, "message-id") {
            Err(e) => Err(e),
            Ok(message_id) => match required_text(h, "subscription") {
                Err(e) => Err(e),
                Ok(subscription) => Ok(
                    FromServerView::Message { destination, message_id, subscription, body: f.body },
                ),
            },
        },
    }
}

/// The server message that a frame stands for. A command counts only in
/// upper case or in lower case throughout; a required header that is absent
/// is an error; every header outside the command's schema is kept as an
/// extra header.
pub open spec fn decode_server(f: FrameView) -> Result<MessageView<FromServerView>, StompError> {
    let h = f.headers;
    if spelled(f.command, "CONNECTED", "connected") {
        match required_text(h, "version") {
            Err(e) => Err(e),
            Ok(version) => Ok(
                MessageView {
                    content: FromServerView::Connected {
                        version,
                        session: header_text(h, bytes_of("session")),
                        server: header_text(h, bytes_of("server")),
                        heartbeat: header_text(h, bytes_of("heart-beat")),
                    },
                    extra_headers: extra_headers(h, connected_schema()),
                },
            ),
        }
    } else if spelled(f.command, "MESSAGE", "message") {
        match message_content(f) {
            Err(e) => Err(e),
            Ok(content) => Ok(
                MessageView { content, extra_headers: extra_headers(h, message_schema()) },
            ),
        }
    } else if spelled(f.command, "RECEIPT", "receipt") {
        match required_text(h, "receipt-id") {
            Err(e) => Err(e),
            Ok(receipt_id) => Ok(
                MessageView {
                    content: FromServerView::Receipt { receipt_id },
                    extra_headers: extra_headers(h, receipt_schema()),
                },
            ),
        }
    } else if spelled(f.command, "ERROR", "error") {
        Ok(
            MessageView {
                content: FromServerView::Error {
                    message: header_text(h, bytes_of("message")),
                    body: f.body,
                },
                extra_headers: extra_headers(h, error_schema()),
            },
        )
    } else {
        Err(StompError::UnrecognizedCommand)
    }
}

/// Is the command one of the two spellings?
fn is_spelled(command: &[u8], upper: &str, lower: &str) -> (r: bool)
    ensures
        r == spelled(command@, upper, lower),
{
    bytes_eq(command, upper.as_bytes()) || bytes_eq(command, lower.as_bytes())
}

/// Is the key among the names?
fn has_name(names: &[&'static [u8]], key: &[u8]) -> (r: bool)
    ensures
        r == names_of(names@).contains(key@),
{
    let mut i: usize = 0;
    while i < names.len()
        invariant
            i <= names@.len(),
            forall|j: int| 0 <= j < i ==> names_of(names@)[j] != key@,
        decreases names@.len() - i,
    {
        if bytes_eq(names[i], key) {
            assert(names_of(names@)[i as int] == key@);
            return true;
        }
        i += 1;
    }
    false
}

/// Copies the headers whose keys are not among the expected ones.
fn collect_extra<'a>(headers: &[(&'a [u8], Cow<'a, [u8]>)], expected: &[&'static [u8]]) -> (r:
    Vec<(Vec<u8>, Vec<u8>)>)
    ensures
        owned_headers(r@) == extra_headers(header_views(headers@), names_of(expected@)),
{
    let ghost all = header_views(headers@);
    let ghost keep = outside(names_of(expected@));
    let mut extra: Vec<(Vec<u8>, Vec<u8>)> = Vec::new();
    let mut i: usize = 0;
    proof {
        reveal(Seq::filter);
        assert(all.take(0).filter(keep) == Headers::empty());
    }
    while i < headers.len()
        invariant
            i <= headers@.len(),
            all == header_views(headers@),
            keep == outside(names_of(expected@)),
            owned_headers(extra@) == all.take(i as int).filter(keep),
        decreases headers@.len() - i,
    {
        let h = &headers[i];
        let ghost before = owned_headers(extra@);
        proof {
            assert(all.take(i + 1) == all.take(i as int).push((h.0@, h.1@)));
            all.take(i as int).lemma_filter_push((h.0@, h.1@), keep);
        }
        if !has_name(expected, h.0) {
            extra.push((slice_to_vec(h.0), slice_to_vec(value_bytes(&h.1))));
            assert(owned_headers(extra@) == before.push((h.0@, h.1@)));
        }
        i += 1;
    }
    assert(all.take(i as int) == all);
    extra
}

/// An owned copy of an optional body.
fn copy_body(body: Option<&[u8]>) -> (r: Option<Vec<u8>>)
    ensures
        opt_bytes(r) == opt_slice(body),
{
    match body {
        Some(b) => Some(slice_to_vec(b)),
        None => None,
    }
}

/// Reads the `heart-beat` header, if there is one.
fn read_heartbeat<'a>(h: &[(&'a [u8], Cow<'a, [u8]>)]) -> (r: Result<
    Option<(u32, u32)>,
    StompError,
>)
    ensures
        r == heartbeat_field(header_views(h@)),
{
    match find_header(h, "heart-beat".as_bytes()) {
        Some(value) => match read_heartbeat_value(value) {
            Ok(pair) => Ok(Some(pair)),
            Err(e) => Err(e),
        },
        None => Ok(None),
    }
}

/// Reads the `ack` header, if there is one.
fn read_ack<'a>(h: &[(&'a [u8], Cow<'a, [u8]>)]) -> (r: Result<Option<AckMode>, StompError>)
    ensures
        r == ack_field(header_views(h@)),
{
    match find_header(h, "ack".as_bytes()) {
        Some(value) => {
            if bytes_eq(value, "auto".as_bytes()) {
                Ok(Some(AckMode::Auto))
            } else if bytes_eq(value, "client".as_bytes()) {
                Ok(Some(AckMode::Client))
            } else if bytes_eq(value, "client-individual".as_bytes()) {
                Ok(Some(AckMode::ClientIndividual))
            } else {
                Err(StompError::InvalidHeaderValue("ack"))
            }
        },
        None => Ok(None),
    }
}

/// Reads the fields of a `CONNECT`.
fn read_connect<'a>(h: &[(&'a [u8], Cow<'a, [u8]>)]) -> (r: Result<ToServer, StompError>)
    ensures
        match r {
            Ok(c) => connect_content(header_views(h@)) == Ok::<ToServerView, StompError>(c@),
            Err(e) => connect_content(header_views(h@)) == Err::<ToServerView, StompError>(e),
        },
{
    let heartbeat: Option<(u32, u32)> = match read_heartbeat(h) {
        Ok(v) => v,
        Err(e) => { return Err(e); },
    };
    let accept_version: String = match expect_header(h, "accept-version") {
        Ok(v) => v,
        Err(e) => { return Err(e); },
    };
    let host: String = match expect_header(h, "host") {
        Ok(v) => v,
        Err(e) => { return Err(e); },
    };
    let login: Option<String> = fetch_header(h, "login");
    let passcode: Option<String> = fetch_header(h, "passcode");
    Ok(ToServer::Connect { accept_version, host, login, passcode, heartbeat })
}

/// Reads the fields of a `SUBSCRIBE`.
fn read_subscribe<'a>(h: &[(&'a [u8], Cow<'a, [u8]>)]) -> (r: Result<ToServer, StompError>)
    ensures
        match r {
            Ok(c) => subscribe_content(header_views(h@)) == Ok::<ToServerView, StompError>(c@),
            Err(e) => subscribe_content(header_views(h@)) == Err::<ToServerView, StompError>(e),
        },
{
    let destination: String = match expect_header(h, "destination") {
        Ok(v) => v,
        Err(e) => { return Err(e); },
    };
    let id: String = match expect_header(h, "id") {
        Ok(v) => v,
        Err(e) => { return Err(e); },
    };
    let ack: Option<AckMode> = match read_ack(h) {
        Ok(v) => v,
        Err(e) => { return Err(e); },
    };
    Ok(ToServer::Subscribe { destination, id, ack })
}

/// Reads the fields of a `MESSAGE`.
fn read_message<'a>(frame: &Frame<'a>) -> (r: Result<FromServer, StompError>)
    ensures
        match r {
            Ok(c) => message_content(frame@) == Ok::<FromServerView, StompError>(c@),
            Err(e) => message_content(frame@) == Err::<FromServerView, StompError>(e),
        },
{
    let h = frame.headers.as_slice();
    let destination: String = match expect_header(h, "destination") {
        Ok(v) => v,
        Err(e) => { return Err(e); },
    };
    let message_id: String = match expect_header(h, "message-id") {
        Ok(v) => v,
        Err(e) => { return Err(e); },
    };
    let subscription: String = match expect_header(h, "subscription") {
        Ok(v) => v,
        Err(e) => { return Err(e); },
    };
    Ok(FromServer::Message { destination, message_id, subscription, body: copy_body(frame.body) })
}

impl<'a> Frame<'a> {
    /// Reads the fields of a client message of the given kind.
    fn read_client_content(&self, kind: ToServerType) -> (r: Result<ToServer, StompError>)
        ensures
            match r {
                Ok(c) => client_content(kind, self@) == Ok::<ToServerView, StompError>(c@),
                Err(e) => client_content(kind, self@) == Err::<ToServerView, StompError>(e),
            },
    {
        let h = self.headers.as_slice();
        match kind {
            ToServerType::Connect => read_connect(h),
            ToServerType::Disconnect => Ok(
                ToServer::Disconnect { receipt: fetch_header(h, "receipt") },
            ),
            ToServerType::Send => match expect_header(h, "destination") {
                Err(e) => Err(e),
                Ok(destination) => Ok(
                    ToServer::Send {
                        destination,
                        transaction: fetch_header(h, "transaction"),
                        body: copy_body(self.body),
                    },
                ),
            },
            ToServerType::Subscribe => read_subscribe(h),
            ToServerType::Unsubscribe => match expect_header(h, "id") {
                Err(e) => Err(e),
                Ok(id) => Ok(ToServer::Unsubscribe { id }),
            },
            ToServerType::Ack => match expect_header(h, "id") {
                Err(e) => Err(e),
                Ok(id) => Ok(ToServer::Ack { id, transaction: fetch_header(h, "transaction") }),
            },
            ToServerType::Nack => match expect_header(h, "id") {
                Err(e) => Err(e),
                Ok(id) => Ok(ToServer::Nack { id, transaction: fetch_header(h, "transaction") }),
            },
            ToServerType::Begin => match expect_header(h, "transaction") {
                Err(e) => Err(e),
                Ok(transaction) => Ok(ToServer::Begin { transaction }),
            },
            ToServerType::Commit => match expect_header(h, "transaction") {
                Err(e) => Err(e),
                Ok(transaction) => Ok(ToServer::Commit { transaction }),
            },
            ToServerType::Abort => match expect_header(h, "transaction") {
                Err(e) => Err(e),
                Ok(transaction) => Ok(ToServer::Abort { transaction }),
            },
        }
    }

    /// Reads the frame as a message from a client.
    pub fn to_client_msg(&self) -> (r: Result<Message<ToServer>, StompError>)
        ensures
            match r {
                Ok(m) => decode_client(self@) == Ok::<MessageView<ToServerView>, StompError>(m@),
                Err(e) => decode_client(self@) == Err::<MessageView<ToServerView>, StompError>(e),
            },
    {
        let kind: ToServerType = match ToServerType::parse_from_bytes(self.command) {
            Some(kind) => kind,
            None => { return Err(StompError::UnrecognizedCommand); },
        };
        let expected = kind.expected_headers();
        let content: ToServer = match self.read_client_content(kind) {
            Ok(content) => content,
            Err(e) => { return Err(e); },
        };
        let extra = collect_extra(self.headers.as_slice(), expected.as_slice());
        Ok(Message { content, extra_headers: extra })
    }

    /// Reads the frame as a message from the server.
    pub fn to_server_msg(&self) -> (r: Result<Message<FromServer>, StompError>)
        ensures
            match r {
                Ok(m) => decode_server(self@) == Ok::<MessageView<FromServerView>, StompError>(m@),
                Err(e) => decode_server(self@) == Err::<MessageView<FromServerView>, StompError>(
                    e,
                ),
            },
    {
        let h = self.headers.as_slice();
        let expected: Vec<&'static [u8]>;
        let content: FromServer;
        if is_spelled(self.command, "CONNECTED", "connected") {
            expected =
            vec![
                "version".as_bytes(),
                "session".as_bytes(),
                "server".as_bytes(),
                "heart-beat".as_bytes(),
            ];
            assert(names_of(expected@) =~= connected_schema());
            let version: String = match expect_header(h, "version") {
                Ok(v) => v,
                Err(e) => { return Err(e); },
            };
            content =
            FromServer::Connected {
                version,
                session: fetch_header(h, "session"),
                server: fetch_header(h, "server"),
                heartbeat: fetch_header(h, "heart-beat"),
            };
        } else if is_spelled(self.command, "MESSAGE", "message") {
            expected =
            vec!["destination".as_bytes(), "message-id".as_bytes(), "subscription".as_bytes()];
            assert(names_of(expected@) =~= message_schema());
            content =
            match read_message(self) {
                Ok(c) => c,
                Err(e) => { return Err(e); },
            };
        } else if is_spelled(self.command, "RECEIPT", "receipt") {
            expected = vec!["receipt-id".as_bytes()];
            assert(names_of(expected@) =~= receipt_schema());
            let receipt_id: String = match expect_header(h, "receipt-id") {
                Ok(v) => v,
                Err(e) => { return Err(e); },
            };
            content = FromServer::Receipt { receipt_id };
        } else if is_spelled(self.command, "ERROR", "error") {
            expected = vec!["message".as_bytes()];
            assert(names_of(expected@) =~= error_schema());
            content =
            FromServer::Error { message: fetch_header(h, "message"), body: copy_body(self.body) };
        } else {
            return Err(StompError::UnrecognizedCommand);
        }
        let extra = collect_extra(h, expected.as_slice());
        Ok(Message { content, extra_headers: extra })
    }
}

/// The bytes of a text, borrowed as a header value.
fn text_value<'a>(s: &'a String) -> (r: Option<Cow<'a, [u8]>>)
    ensures
        opt_value(r) == Some(encode_utf8(s@)),
{
    Some(Cow::Borrowed(s.as_str().as_bytes()))
}

/// The bytes of an optional text, borrowed as a header value.
pub fn opt_str_to_bytes<'a>(s: &'a Option<String>) -> (r: Option<Cow<'a, [u8]>>)
    ensures
        opt_value(r) == opt_encoded(opt_text(*s)),
{
    match s {
        Some(v) => Some(Cow::Borrowed(v.as_str().as_bytes())),
        None => None,
    }
}

/// The header value of an optional pair of heart-beat numbers.
fn heartbeat_to_bytes<'a>(heartbeat: &Option<(u32, u32)>) -> (r: Option<Cow<'a, [u8]>>)
    ensures
        opt_value(r) == opt_heartbeat(*heartbeat),
{
    match heartbeat {
        Some((v1, v2)) => {
            let mut value: Vec<u8> = Vec::new();
            push_decimal(*v1 as usize, &mut value);
            value.push(COMMA);
            push_decimal(*v2 as usize, &mut value);
            Some(Cow::Owned(value))
        },
        None => None,
    }
}

/// The header value of an optional acknowledgement mode.
fn ack_to_bytes<'a>(ack: &Option<AckMode>) -> (r: Option<Cow<'a, [u8]>>)
    ensures
        opt_value(r) == opt_ack(*ack),
{
    match ack {
        Some(AckMode::Auto) => Some(Cow::Borrowed("auto".as_bytes())),
        Some(AckMode::Client) => Some(Cow::Borrowed("client".as_bytes())),
        Some(AckMode::ClientIndividual) => Some(Cow::Borrowed("client-individual".as_bytes())),
        None => None,
    }
}

/// An optional body, borrowed.
fn borrow_body<'a>(body: &'a Option<Vec<u8>>) -> (r: Option<&'a [u8]>)
    ensures
        opt_slice(r) == opt_bytes(*body),
{
    match body {
        Some(v) => Some(v.as_slice()),
        None => None,
    }
}

/// The frame of a `CONNECT`.
fn connect_frame<'a>(
    accept_version: &'a String,
    host: &'a String,
    login: &'a Option<String>,
    passcode: &'a Option<String>,
    heartbeat: &Option<(u32, u32)>,
) -> (r: Frame<'a>)
    ensures
        r@ == encode_frame(
            ToServerView::Connect {
                accept_version: accept_version@,
                host: host@,
                login: opt_text(*login),
                passcode: opt_text(*passcode),
                heartbeat: *heartbeat,
            },
        ),
{
    let entries: Vec<(&'a [u8], Option<Cow<'a, [u8]>>)> = vec![
        ("accept-version".as_bytes(), text_value(accept_version)),
        ("host".as_bytes(), text_value(host)),
        ("login".as_bytes(), opt_str_to_bytes(login)),
        ("passcode".as_bytes(), opt_str_to_bytes(passcode)),
        ("heart-beat".as_bytes(), heartbeat_to_bytes(heartbeat)),
    ];
    assert(entry_views(entries@) =~= seq![
        (bytes_of("accept-version"), Some(encode_utf8(accept_version@))),
        (bytes_of("host"), Some(encode_utf8(host@))),
        (bytes_of("login"), opt_encoded(opt_text(*login))),
        (bytes_of("passcode"), opt_encoded(opt_text(*passcode))),
        (bytes_of("heart-beat"), opt_heartbeat(*heartbeat)),
    ]);
    Frame::new("CONNECT".as_bytes(), entries.as_slice(), None)
}

/// The frame of a `SUBSCRIBE`.
fn subscribe_frame<'a>(destination: &'a String, id: &'a String, ack: &Option<AckMode>) -> (r:
    Frame<'a>)
    ensures
        r@ == encode_frame(
            ToServerView::Subscribe { destination: destination@, id: id@, ack: *ack },
        ),
{
    let entries: Vec<(&'a [u8], Option<Cow<'a, [u8]>>)> = vec![
        ("destination".as_bytes(), text_value(destination)),
        ("id".as_bytes(), text_value(id)),
        ("ack".as_bytes(), ack_to_bytes(ack)),
    ];
    assert(entry_views(entries@) =~= seq![
        (bytes_of("destination"), Some(encode_utf8(destination@))),
        (bytes_of("id"), Some(encode_utf8(id@))),
        (bytes_of("ack"), opt_ack(*ack)),
    ]);
    Frame::new("SUBSCRIBE".as_bytes(), entries.as_slice(), None)
}

/// The frame of a `SEND`.
fn send_frame<'a>(
    destination: &'a String,
    transaction: &'a Option<String>,
    body: &'a Option<Vec<u8>>,
) -> (r: Frame<'a>)
    ensures
        r@ == encode_frame(
            ToServerView::Send {
                destination: destination@,
                transaction: opt_text(*transaction),
                body: opt_bytes(*body),
            },
        ),
{
    let entries: Vec<(&'a [u8], Option<Cow<'a, [u8]>>)> = vec![
        ("destination".as_bytes(), text_value(destination)),
        ("transaction".as_bytes(), opt_str_to_bytes(transaction)),
    ];
    assert(entry_views(entries@) =~= seq![
        (bytes_of("destination"), Some(encode_utf8(destination@))),
        (bytes_of("transaction"), opt_encoded(opt_text(*transaction))),
    ]);
    Frame::new("SEND".as_bytes(), entries.as_slice(), borrow_body(body))
}

/// The frame of an `ACK` or a `NACK`: the two differ in the command alone.
fn answer_frame<'a>(command: &'a str, id: &'a String, transaction: &'a Option<String>) -> (r:
    Frame<'a>)
    ensures
        r@ == (FrameView {
            command: bytes_of(command),
            headers: present(
                seq![
                    (bytes_of("id"), Some(encode_utf8(id@))),
                    (bytes_of("transaction"), opt_encoded(opt_text(*transaction))),
                ],
            ),
            body: None,
        }),
{
    let entries: Vec<(&'a [u8], Option<Cow<'a, [u8]>>)> = vec![
        ("id".as_bytes(), text_value(id)),
        ("transaction".as_bytes(), opt_str_to_bytes(transaction)),
    ];
    assert(entry_views(entries@) =~= seq![
        (bytes_of("id"), Some(encode_utf8(id@))),
        (bytes_of("transaction"), opt_encoded(opt_text(*transaction))),
    ]);
    Frame::new(command.as_bytes(), entries.as_slice(), None)
}

/// A frame with a single header.
fn single_header_frame<'a>(command: &'a str, key: &'a str, value: Option<Cow<'a, [u8]>>) -> (r:
    Frame<'a>)
    ensures
        r@ == (FrameView {
            command: bytes_of(command),
            headers: present(seq![(bytes_of(key), opt_value(value))]),
            body: None,
        }),
{
    let entries: Vec<(&'a [u8], Option<Cow<'a, [u8]>>)> = vec![(key.as_bytes(), value)];
    assert(entry_views(entries@) =~= seq![(bytes_of(key), opt_value(value))]);
    Frame::new(command.as_bytes(), entries.as_slice(), None)
}

impl ToServer {
    /// The frame that carries the message.
    pub fn to_frame<'a>(&'a self) -> (r: Frame<'a>)
        ensures
            r@ == encode_frame(self@),
    {
        match self {
            ToServer::Connect { accept_version, host, login, passcode, heartbeat } => {
                connect_frame(accept_version, host, login, passcode, heartbeat)
            },
            ToServer::Disconnect { receipt } => single_header_frame(
                "DISCONNECT",
                "receipt",
                opt_str_to_bytes(receipt),
            ),
            ToServer::Subscribe { destination, id, ack } => subscribe_frame(destination, id, ack),
            ToServer::Unsubscribe { id } => single_header_frame(
                "UNSUBSCRIBE",
                "id",
                text_value(id),
            ),
            ToServer::Send { destination, transaction, body } => send_frame(
                destination,
                transaction,
                body,
            ),
            ToServer::Ack { id, transaction } => answer_frame("ACK", id, transaction),
            ToServer::Nack { id, transaction } => answer_frame("NACK", id, transaction),
            ToServer::Begin { transaction } => single_header_frame(
                "BEGIN",
                "transaction",
                text_value(transaction),
            ),
            ToServer::Commit { transaction } => single_header_frame(
                "COMMIT",
                "transaction",
                text_value(transaction),
            ),
            ToServer::Abort { transaction } => single_header_frame(
                "ABORT",
                "transaction",
                text_value(transaction),
            ),
        }
    }
}

} // verus!
