//! The round trip, one kind of client message at a time.

use crate::error::StompError;
use crate::frame::{lookup, present, Entries, FrameView};
use crate::literals::{
    lemma_command, lemma_content_length_key, lemma_header_names, lemma_name_plain,
    lemma_names_differ,
};
use crate::parser::{parse, Parsed};
use crate::round_trip::{announced, comes_back, read_back, survives, unescaped, unescaped_opt};
use crate::round_trip::entries::{
    lemma_present_keys, lemma_written_frame, lemma_written_lookup, well_formed,
};
use crate::round_trip::values::{
    lemma_ack_read_back, lemma_heartbeat_read_back, lemma_opt_text_read_back, lemma_text_read_back,
};
use crate::serializer::wire;
use crate::taxonomy::{
    ack_field, client_content, connect_content, decode_client, encode_frame, entries_of,
    extra_headers,
    heartbeat_field, kind_of, opt_ack, opt_encoded, opt_heartbeat, subscribe_content,
};
use crate::text::bytes_of;
use crate::{AckMode, MessageView, ToServerType, ToServerView};
use vstd::prelude::*;
use vstd::utf8::encode_utf8;

verus! {

/// The headers of a `CONNECT`, each with the value that is written for it.
pub(crate) open spec fn connect_entries(
    accept_version: Seq<char>,
    host: Seq<char>,
    login: Option<Seq<char>>,
    passcode: Option<Seq<char>>,
    heartbeat: Option<(u32, u32)>,
) -> Entries {
    entries_of(ToServerView::Connect { accept_version, host, login, passcode, heartbeat })
}

/// The headers of a `CONNECT` that survives are well formed.
pub(crate) proof fn lemma_connect_entries(
    accept_version: Seq<char>,
    host: Seq<char>,
    login: Option<Seq<char>>,
    passcode: Option<Seq<char>>,
    heartbeat: Option<(u32, u32)>,
)
    requires
        survives(ToServerView::Connect { accept_version, host, login, passcode, heartbeat }),
    ensures
        well_formed(
            connect_entries(accept_version, host, login, passcode, heartbeat),
            ToServerType::Connect.schema(),
        ),
        !ToServerType::Connect.schema().contains(bytes_of("content-length")),
{
    reveal(well_formed);
    let entries = connect_entries(accept_version, host, login, passcode, heartbeat);
    let schema = ToServerType::Connect.schema();
    lemma_header_names();
    lemma_content_length_key();
    lemma_names_differ("accept-version", 14, 'a', "host", 4, 'h');
    lemma_names_differ("accept-version", 14, 'a', "login", 5, 'l');
    lemma_names_differ("accept-version", 14, 'a', "passcode", 8, 'p');
    lemma_names_differ("accept-version", 14, 'a', "heart-beat", 10, 'h');
    lemma_names_differ("host", 4, 'h', "login", 5, 'l');
    lemma_names_differ("host", 4, 'h', "passcode", 8, 'p');
    lemma_names_differ("host", 4, 'h', "heart-beat", 10, 'h');
    lemma_names_differ("login", 5, 'l', "passcode", 8, 'p');
    lemma_names_differ("login", 5, 'l', "heart-beat", 10, 'h');
    lemma_names_differ("passcode", 8, 'p', "heart-beat", 10, 'h');
    lemma_names_differ("accept-version", 14, 'a', "content-length", 14, 'c');
    lemma_names_differ("host", 4, 'h', "content-length", 14, 'c');
    lemma_names_differ("login", 5, 'l', "content-length", 14, 'c');
    lemma_names_differ("passcode", 8, 'p', "content-length", 14, 'c');
    lemma_names_differ("heart-beat", 10, 'h', "content-length", 14, 'c');
    lemma_name_plain("accept-version", 14, 'a');
    lemma_name_plain("host", 4, 'h');
    lemma_name_plain("login", 5, 'l');
    lemma_name_plain("passcode", 8, 'p');
    lemma_name_plain("heart-beat", 10, 'h');
    match heartbeat {
        Some(pair) => {
            lemma_heartbeat_read_back(pair);
        },
        None => {},
    }
    assert(schema[0] == entries[0].0);
    assert(schema[1] == entries[1].0);
    assert(schema[2] == entries[2].0);
    assert(schema[3] == entries[3].0);
    assert(schema[4] == entries[4].0);
}

/// A frame with the command and the headers of a `CONNECT` stands for
/// that message.
pub(crate) proof fn lemma_connect_decodes(
    read: FrameView,
    accept_version: Seq<char>,
    host: Seq<char>,
    login: Option<Seq<char>>,
    passcode: Option<Seq<char>>,
    heartbeat: Option<(u32, u32)>,
)
    requires
        read.command == bytes_of("CONNECT"),
        lookup(read.headers, bytes_of("accept-version")) == Some(encode_utf8(accept_version)),
        lookup(read.headers, bytes_of("host")) == Some(encode_utf8(host)),
        lookup(read.headers, bytes_of("login")) == opt_encoded(login),
        lookup(read.headers, bytes_of("passcode")) == opt_encoded(passcode),
        lookup(read.headers, bytes_of("heart-beat")) == opt_heartbeat(heartbeat),
    ensures
        decode_client(read) == Ok::<MessageView<ToServerView>, StompError>(
            MessageView {
                content: ToServerView::Connect { accept_version, host, login, passcode, heartbeat },
                extra_headers: extra_headers(read.headers, ToServerType::Connect.schema()),
            },
        ),
{
    let m = ToServerView::Connect { accept_version, host, login, passcode, heartbeat };
    lemma_command(ToServerType::Connect);
    lemma_text_read_back(accept_version);
    lemma_text_read_back(host);
    lemma_opt_text_read_back(login);
    lemma_opt_text_read_back(passcode);
    match heartbeat {
        Some(pair) => {
            lemma_heartbeat_read_back(pair);
        },
        None => {},
    }
    assert(heartbeat_field(read.headers) == Ok::<Option<(u32, u32)>, StompError>(heartbeat));
    assert(connect_content(read.headers) == Ok::<ToServerView, StompError>(m));
}

/// In a `CONNECT` that is read back, each key of the schema leads to the
/// value that was written for it.
pub(crate) proof fn lemma_connect_lookups(
    accept_version: Seq<char>,
    host: Seq<char>,
    login: Option<Seq<char>>,
    passcode: Option<Seq<char>>,
    heartbeat: Option<(u32, u32)>,
)
    requires
        survives(ToServerView::Connect { accept_version, host, login, passcode, heartbeat }),
    ensures
        ({
            let read = read_back(
                FrameView {
                    command: bytes_of("CONNECT"),
                    headers: present(
                        connect_entries(accept_version, host, login, passcode, heartbeat),
                    ),
                    body: None,
                },
            ).headers;
            &&& lookup(read, bytes_of("accept-version")) == Some(encode_utf8(accept_version))
            &&& lookup(read, bytes_of("host")) == Some(encode_utf8(host))
            &&& lookup(read, bytes_of("login")) == opt_encoded(login)
            &&& lookup(read, bytes_of("passcode")) == opt_encoded(passcode)
            &&& lookup(read, bytes_of("heart-beat")) == opt_heartbeat(heartbeat)
        }),
{
    let entries = connect_entries(accept_version, host, login, passcode, heartbeat);
    let command = bytes_of("CONNECT");
    let schema = ToServerType::Connect.schema();
    lemma_connect_entries(accept_version, host, login, passcode, heartbeat);
    lemma_written_lookup(command, entries, None, schema, 0);
    lemma_written_lookup(command, entries, None, schema, 1);
    lemma_written_lookup(command, entries, None, schema, 2);
    lemma_written_lookup(command, entries, None, schema, 3);
    lemma_written_lookup(command, entries, None, schema, 4);
}

/// A `CONNECT` that survives comes back.
pub(crate) proof fn lemma_connect_comes_back(
    accept_version: Seq<char>,
    host: Seq<char>,
    login: Option<Seq<char>>,
    passcode: Option<Seq<char>>,
    heartbeat: Option<(u32, u32)>,
)
    requires
        survives(ToServerView::Connect { accept_version, host, login, passcode, heartbeat }),
    ensures
        comes_back(ToServerView::Connect { accept_version, host, login, passcode, heartbeat }),
{
    let m = ToServerView::Connect { accept_version, host, login, passcode, heartbeat };
    let entries = connect_entries(accept_version, host, login, passcode, heartbeat);
    lemma_connect_entries(accept_version, host, login, passcode, heartbeat);
    lemma_command(ToServerType::Connect);
    lemma_written_frame(bytes_of("CONNECT"), entries, None, ToServerType::Connect.schema());
    let read = read_back(encode_frame(m));
    lemma_connect_lookups(accept_version, host, login, passcode, heartbeat);
    lemma_connect_decodes(read, accept_version, host, login, passcode, heartbeat);
}

/// A `DISCONNECT` that survives comes back.
pub(crate) proof fn lemma_disconnect_comes_back(receipt: Option<Seq<char>>)
    requires
        survives(ToServerView::Disconnect { receipt }),
    ensures
        comes_back(ToServerView::Disconnect { receipt }),
{
    reveal(well_formed);
    let m = ToServerView::Disconnect { receipt };
    let kind = ToServerType::Disconnect;
    let entries = seq![(bytes_of("receipt"), opt_encoded(receipt))];
    lemma_header_names();
    lemma_content_length_key();
    lemma_names_differ("receipt", 7, 'r', "content-length", 14, 'c');
    lemma_name_plain("receipt", 7, 'r');
    assert(kind.schema()[0] == entries[0].0);
    assert(well_formed(entries, kind.schema()));
    lemma_command(ToServerType::Disconnect);
    lemma_written_frame(bytes_of("DISCONNECT"), entries, None, kind.schema());
    let read = read_back(encode_frame(m));
    lemma_written_lookup(bytes_of("DISCONNECT"), entries, None, kind.schema(), 0);
    lemma_opt_text_read_back(receipt);
    assert(client_content(kind, read) == Ok::<ToServerView, StompError>(m));
}

/// An `UNSUBSCRIBE` that survives comes back.
pub(crate) proof fn lemma_unsubscribe_comes_back(id: Seq<char>)
    requires
        survives(ToServerView::Unsubscribe { id }),
    ensures
        comes_back(ToServerView::Unsubscribe { id }),
{
    reveal(well_formed);
    let m = ToServerView::Unsubscribe { id };
    let kind = ToServerType::Unsubscribe;
    let entries = seq![(bytes_of("id"), Some(encode_utf8(id)))];
    lemma_header_names();
    lemma_content_length_key();
    lemma_names_differ("id", 2, 'i', "content-length", 14, 'c');
    lemma_name_plain("id", 2, 'i');
    assert(kind.schema()[0] == entries[0].0);
    assert(well_formed(entries, kind.schema()));
    lemma_command(ToServerType::Unsubscribe);
    lemma_written_frame(bytes_of("UNSUBSCRIBE"), entries, None, kind.schema());
    let read = read_back(encode_frame(m));
    lemma_written_lookup(bytes_of("UNSUBSCRIBE"), entries, None, kind.schema(), 0);
    lemma_text_read_back(id);
    assert(client_content(kind, read) == Ok::<ToServerView, StompError>(m));
}

/// A `BEGIN` that survives comes back.
pub(crate) proof fn lemma_begin_comes_back(transaction: Seq<char>)
    requires
        survives(ToServerView::Begin { transaction }),
    ensures
        comes_back(ToServerView::Begin { transaction }),
{
    reveal(well_formed);
    let m = ToServerView::Begin { transaction };
    let kind = ToServerType::Begin;
    let entries = seq![(bytes_of("transaction"), Some(encode_utf8(transaction)))];
    lemma_header_names();
    lemma_content_length_key();
    lemma_names_differ("transaction", 11, 't', "content-length", 14, 'c');
    lemma_name_plain("transaction", 11, 't');
    assert(kind.schema()[0] == entries[0].0);
    assert(well_formed(entries, kind.schema()));
    lemma_command(ToServerType::Begin);
    lemma_written_frame(bytes_of("BEGIN"), entries, None, kind.schema());
    let read = read_back(encode_frame(m));
    lemma_written_lookup(bytes_of("BEGIN"), entries, None, kind.schema(), 0);
    lemma_text_read_back(transaction);
    assert(client_content(kind, read) == Ok::<ToServerView, StompError>(m));
}

/// A `COMMIT` that survives comes back.
pub(crate) proof fn lemma_commit_comes_back(transaction: Seq<char>)
    requires
        survives(ToServerView::Commit { transaction }),
    ensures
        comes_back(ToServerView::Commit { transaction }),
{
    reveal(well_formed);
    let m = ToServerView::Commit { transaction };
    let kind = ToServerType::Commit;
    let entries = seq![(bytes_of("transaction"), Some(encode_utf8(transaction)))];
    lemma_header_names();
    lemma_content_length_key();
    lemma_names_differ("transaction", 11, 't', "content-length", 14, 'c');
    lemma_name_plain("transaction", 11, 't');
    assert(kind.schema()[0] == entries[0].0);
    assert(well_formed(entries, kind.schema()));
    lemma_command(ToServerType::Commit);
    lemma_written_frame(bytes_of("COMMIT"), entries, None, kind.schema());
    let read = read_back(encode_frame(m));
    lemma_written_lookup(bytes_of("COMMIT"), entries, None, kind.schema(), 0);
    lemma_text_read_back(transaction);
    assert(client_content(kind, read) == Ok::<ToServerView, StompError>(m));
}

/// An `ABORT` that survives comes back.
pub(crate) proof fn lemma_abort_comes_back(transaction: Seq<char>)
    requires
        survives(ToServerView::Abort { transaction }),
    ensures
        comes_back(ToServerView::Abort { transaction }),
{
    reveal(well_formed);
    let m = ToServerView::Abort { transaction };
    let kind = ToServerType::Abort;
    let entries = seq![(bytes_of("transaction"), Some(encode_utf8(transaction)))];
    lemma_header_names();
    lemma_content_length_key();
    lemma_names_differ("transaction", 11, 't', "content-length", 14, 'c');
    lemma_name_plain("transaction", 11, 't');
    assert(kind.schema()[0] == entries[0].0);
    assert(well_formed(entries, kind.schema()));
    lemma_command(ToServerType::Abort);
    lemma_written_frame(bytes_of("ABORT"), entries, None, kind.schema());
    let read = read_back(encode_frame(m));
    lemma_written_lookup(bytes_of("ABORT"), entries, None, kind.schema(), 0);
    lemma_text_read_back(transaction);
    assert(client_content(kind, read) == Ok::<ToServerView, StompError>(m));
}

/// The headers of an `ACK` or a `NACK`, each with the value that is written
/// for it.
pub(crate) open spec fn answer_entries(id: Seq<char>, transaction: Option<Seq<char>>) -> Entries {
    entries_of(ToServerView::Ack { id, transaction })
}

/// The headers of an `ACK` or a `NACK` that survives are well formed.
pub(crate) proof fn lemma_answer_entries(id: Seq<char>, transaction: Option<Seq<char>>)
    requires
        unescaped(id),
        unescaped_opt(transaction),
    ensures
        well_formed(answer_entries(id, transaction), ToServerType::Ack.schema()),
        !ToServerType::Ack.schema().contains(bytes_of("content-length")),
{
    reveal(well_formed);
    let entries = answer_entries(id, transaction);
    let schema = ToServerType::Ack.schema();
    lemma_header_names();
    lemma_content_length_key();
    lemma_names_differ("id", 2, 'i', "transaction", 11, 't');
    lemma_names_differ("id", 2, 'i', "content-length", 14, 'c');
    lemma_names_differ("transaction", 11, 't', "content-length", 14, 'c');
    lemma_name_plain("id", 2, 'i');
    lemma_name_plain("transaction", 11, 't');
    assert(schema[0] == entries[0].0);
    assert(schema[1] == entries[1].0);
}

/// A frame with the command and the headers of an `ACK` stands for that
/// message.
pub(crate) proof fn lemma_ack_decodes(
    read: FrameView,
    id: Seq<char>,
    transaction: Option<Seq<char>>,
)
    requires
        read.command == bytes_of("ACK"),
        lookup(read.headers, bytes_of("id")) == Some(encode_utf8(id)),
        lookup(read.headers, bytes_of("transaction")) == opt_encoded(transaction),
    ensures
        decode_client(read) == Ok::<MessageView<ToServerView>, StompError>(
            MessageView {
                content: ToServerView::Ack { id, transaction },
                extra_headers: extra_headers(read.headers, ToServerType::Ack.schema()),
            },
        ),
{
    lemma_command(ToServerType::Ack);
    lemma_text_read_back(id);
    lemma_opt_text_read_back(transaction);
    assert(client_content(ToServerType::Ack, read) == Ok::<ToServerView, StompError>(
        ToServerView::Ack { id, transaction },
    ));
}

/// An `ACK` that survives comes back.
pub(crate) proof fn lemma_ack_comes_back(id: Seq<char>, transaction: Option<Seq<char>>)
    requires
        survives(ToServerView::Ack { id, transaction }),
    ensures
        comes_back(ToServerView::Ack { id, transaction }),
{
    let m = ToServerView::Ack { id, transaction };
    let entries = answer_entries(id, transaction);
    lemma_answer_entries(id, transaction);
    assert(ToServerType::Ack.schema() == ToServerType::Ack.schema());
    lemma_command(ToServerType::Ack);
    lemma_written_frame(bytes_of("ACK"), entries, None, ToServerType::Ack.schema());
    let read = read_back(encode_frame(m));
    lemma_written_lookup(bytes_of("ACK"), entries, None, ToServerType::Ack.schema(), 0);
    lemma_written_lookup(bytes_of("ACK"), entries, None, ToServerType::Ack.schema(), 1);
    lemma_ack_decodes(read, id, transaction);
}

/// A frame with the command and the headers of a `NACK` stands for that
/// message.
pub(crate) proof fn lemma_nack_decodes(
    read: FrameView,
    id: Seq<char>,
    transaction: Option<Seq<char>>,
)
    requires
        read.command == bytes_of("NACK"),
        lookup(read.headers, bytes_of("id")) == Some(encode_utf8(id)),
        lookup(read.headers, bytes_of("transaction")) == opt_encoded(transaction),
    ensures
        decode_client(read) == Ok::<MessageView<ToServerView>, StompError>(
            MessageView {
                content: ToServerView::Nack { id, transaction },
                extra_headers: extra_headers(read.headers, ToServerType::Nack.schema()),
            },
        ),
{
    lemma_command(ToServerType::Nack);
    lemma_text_read_back(id);
    lemma_opt_text_read_back(transaction);
    assert(client_content(ToServerType::Nack, read) == Ok::<ToServerView, StompError>(
        ToServerView::Nack { id, transaction },
    ));
}

/// A `NACK` that survives comes back.
pub(crate) proof fn lemma_nack_comes_back(id: Seq<char>, transaction: Option<Seq<char>>)
    requires
        survives(ToServerView::Nack { id, transaction }),
    ensures
        comes_back(ToServerView::Nack { id, transaction }),
{
    let m = ToServerView::Nack { id, transaction };
    let entries = answer_entries(id, transaction);
    lemma_answer_entries(id, transaction);
    assert(ToServerType::Nack.schema() == ToServerType::Ack.schema());
    lemma_command(ToServerType::Nack);
    lemma_written_frame(bytes_of("NACK"), entries, None, ToServerType::Nack.schema());
    let read = read_back(encode_frame(m));
    lemma_written_lookup(bytes_of("NACK"), entries, None, ToServerType::Nack.schema(), 0);
    lemma_written_lookup(bytes_of("NACK"), entries, None, ToServerType::Nack.schema(), 1);
    lemma_nack_decodes(read, id, transaction);
}

/// The headers of a `SUBSCRIBE`, each with the value that is written for
/// it.
pub(crate) open spec fn subscribe_entries(
    destination: Seq<char>,
    id: Seq<char>,
    ack: Option<AckMode>,
) -> Entries {
    entries_of(ToServerView::Subscribe { destination, id, ack })
}

/// The headers of a `SUBSCRIBE` that survives are well formed.
pub(crate) proof fn lemma_subscribe_entries(
    destination: Seq<char>,
    id: Seq<char>,
    ack: Option<AckMode>,
)
    requires
        unescaped(destination),
        unescaped(id),
    ensures
        well_formed(subscribe_entries(destination, id, ack), ToServerType::Subscribe.schema()),
        !ToServerType::Subscribe.schema().contains(bytes_of("content-length")),
{
    reveal(well_formed);
    let entries = subscribe_entries(destination, id, ack);
    let schema = ToServerType::Subscribe.schema();
    lemma_header_names();
    lemma_content_length_key();
    lemma_names_differ("destination", 11, 'd', "id", 2, 'i');
    lemma_names_differ("destination", 11, 'd', "ack", 3, 'a');
    lemma_names_differ("id", 2, 'i', "ack", 3, 'a');
    lemma_names_differ("destination", 11, 'd', "content-length", 14, 'c');
    lemma_names_differ("id", 2, 'i', "content-length", 14, 'c');
    lemma_names_differ("ack", 3, 'a', "content-length", 14, 'c');
    lemma_name_plain("destination", 11, 'd');
    lemma_name_plain("id", 2, 'i');
    lemma_name_plain("ack", 3, 'a');
    match ack {
        Some(mode) => {
            lemma_ack_read_back(mode);
        },
        None => {},
    }
    assert(schema[0] == entries[0].0);
    assert(schema[1] == entries[1].0);
    assert(schema[2] == entries[2].0);
}

/// A frame with the command and the headers of a `SUBSCRIBE` stands for
/// that message.
pub(crate) proof fn lemma_subscribe_decodes(
    read: FrameView,
    destination: Seq<char>,
    id: Seq<char>,
    ack: Option<AckMode>,
)
    requires
        read.command == bytes_of("SUBSCRIBE"),
        lookup(read.headers, bytes_of("destination")) == Some(encode_utf8(destination)),
        lookup(read.headers, bytes_of("id")) == Some(encode_utf8(id)),
        lookup(read.headers, bytes_of("ack")) == opt_ack(ack),
    ensures
        decode_client(read) == Ok::<MessageView<ToServerView>, StompError>(
            MessageView {
                content: ToServerView::Subscribe { destination, id, ack },
                extra_headers: extra_headers(read.headers, ToServerType::Subscribe.schema()),
            },
        ),
{
    lemma_command(ToServerType::Subscribe);
    lemma_text_read_back(destination);
    lemma_text_read_back(id);
    match ack {
        Some(mode) => {
            lemma_ack_read_back(mode);
        },
        None => {},
    }
    assert(ack_field(read.headers) == Ok::<Option<AckMode>, StompError>(ack));
    assert(subscribe_content(read.headers) == Ok::<ToServerView, StompError>(
        ToServerView::Subscribe { destination, id, ack },
    ));
}

/// A `SUBSCRIBE` that survives comes back.
pub(crate) proof fn lemma_subscribe_comes_back(
    destination: Seq<char>,
    id: Seq<char>,
    ack: Option<AckMode>,
)
    requires
        survives(ToServerView::Subscribe { destination, id, ack }),
    ensures
        comes_back(ToServerView::Subscribe { destination, id, ack }),
{
    let m = ToServerView::Subscribe { destination, id, ack };
    let entries = subscribe_entries(destination, id, ack);
    lemma_subscribe_entries(destination, id, ack);
    lemma_command(ToServerType::Subscribe);
    lemma_written_frame(bytes_of("SUBSCRIBE"), entries, None, ToServerType::Subscribe.schema());
    let read = read_back(encode_frame(m));
    lemma_written_lookup(bytes_of("SUBSCRIBE"), entries, None, ToServerType::Subscribe.schema(), 0);
    lemma_written_lookup(bytes_of("SUBSCRIBE"), entries, None, ToServerType::Subscribe.schema(), 1);
    lemma_written_lookup(bytes_of("SUBSCRIBE"), entries, None, ToServerType::Subscribe.schema(), 2);
    lemma_subscribe_decodes(read, destination, id, ack);
}

/// The headers of a `SEND`, each with the value that is written for it.
pub(crate) open spec fn send_entries(
    destination: Seq<char>,
    transaction: Option<Seq<char>>,
) -> Entries {
    entries_of(ToServerView::Send { destination, transaction, body: None })
}

/// The headers of a `SEND` that survives are well formed.
pub(crate) proof fn lemma_send_entries(destination: Seq<char>, transaction: Option<Seq<char>>)
    requires
        unescaped(destination),
        unescaped_opt(transaction),
    ensures
        well_formed(send_entries(destination, transaction), ToServerType::Send.schema()),
        !ToServerType::Send.schema().contains(bytes_of("content-length")),
{
    reveal(well_formed);
    let entries = send_entries(destination, transaction);
    let schema = ToServerType::Send.schema();
    lemma_header_names();
    lemma_content_length_key();
    lemma_names_differ("destination", 11, 'd', "transaction", 11, 't');
    lemma_names_differ("destination", 11, 'd', "content-length", 14, 'c');
    lemma_names_differ("transaction", 11, 't', "content-length", 14, 'c');
    lemma_name_plain("destination", 11, 'd');
    lemma_name_plain("transaction", 11, 't');
    assert(schema[0] == entries[0].0);
    assert(schema[1] == entries[1].0);
}

/// A frame with the command and the headers of a `SEND` stands for that
/// message.
pub(crate) proof fn lemma_send_decodes(
    read: FrameView,
    destination: Seq<char>,
    transaction: Option<Seq<char>>,
)
    requires
        read.command == bytes_of("SEND"),
        lookup(read.headers, bytes_of("destination")) == Some(encode_utf8(destination)),
        lookup(read.headers, bytes_of("transaction")) == opt_encoded(transaction),
    ensures
        decode_client(read) == Ok::<MessageView<ToServerView>, StompError>(
            MessageView {
                content: ToServerView::Send { destination, transaction, body: read.body },
                extra_headers: extra_headers(read.headers, ToServerType::Send.schema()),
            },
        ),
{
    lemma_command(ToServerType::Send);
    lemma_text_read_back(destination);
    lemma_opt_text_read_back(transaction);
    assert(client_content(ToServerType::Send, read) == Ok::<ToServerView, StompError>(
        ToServerView::Send { destination, transaction, body: read.body },
    ));
}

/// What a `SEND` that survives is read back as.
pub(crate) proof fn lemma_send_read_back(
    destination: Seq<char>,
    transaction: Option<Seq<char>>,
    body: Option<Seq<u8>>,
)
    requires
        survives(ToServerView::Send { destination, transaction, body }),
    ensures
        ({
            let f = FrameView {
                command: bytes_of("SEND"),
                headers: present(send_entries(destination, transaction)),
                body,
            };
            let read = read_back(f);
            &&& parse(wire(f)) == (Parsed::Complete { frame: read, consumed: wire(f).len() as int })
            &&& read.command == bytes_of("SEND")
            &&& read.body == body
            &&& extra_headers(read.headers, ToServerType::Send.schema()) == announced(body)
            &&& lookup(read.headers, bytes_of("destination")) == Some(encode_utf8(destination))
            &&& lookup(read.headers, bytes_of("transaction")) == opt_encoded(transaction)
        }),
{
    let entries = send_entries(destination, transaction);
    lemma_send_entries(destination, transaction);
    lemma_command(ToServerType::Send);
    lemma_written_frame(bytes_of("SEND"), entries, body, ToServerType::Send.schema());
    lemma_written_lookup(bytes_of("SEND"), entries, body, ToServerType::Send.schema(), 0);
    lemma_written_lookup(bytes_of("SEND"), entries, body, ToServerType::Send.schema(), 1);
}

/// A `SEND` that survives comes back.
pub(crate) proof fn lemma_send_comes_back(
    destination: Seq<char>,
    transaction: Option<Seq<char>>,
    body: Option<Seq<u8>>,
)
    requires
        survives(ToServerView::Send { destination, transaction, body }),
    ensures
        comes_back(ToServerView::Send { destination, transaction, body }),
{
    let m = ToServerView::Send { destination, transaction, body };
    let f = FrameView {
        command: bytes_of("SEND"),
        headers: present(send_entries(destination, transaction)),
        body,
    };
    lemma_send_read_back(destination, transaction, body);
    assert(encode_frame(m) == f);
    lemma_send_decodes(read_back(f), destination, transaction);
}

/// The keys of the frame of `m` lie within the schema of its kind.
pub(crate) open spec fn keys_in_schema(m: ToServerView) -> bool {
    forall|i: int|
        0 <= i < encode_frame(m).headers.len() ==> kind_of(m).schema().contains(
            (#[trigger] encode_frame(m).headers[i]).0,
        )
}

/// The keys of a `CONNECT` frame lie within its schema.
pub(crate) proof fn lemma_connect_keys(
    accept_version: Seq<char>,
    host: Seq<char>,
    login: Option<Seq<char>>,
    passcode: Option<Seq<char>>,
    heartbeat: Option<(u32, u32)>,
)
    ensures
        keys_in_schema(ToServerView::Connect { accept_version, host, login, passcode, heartbeat }),
{
    lemma_present_keys(
        connect_entries(accept_version, host, login, passcode, heartbeat),
        ToServerType::Connect.schema(),
    );
}

/// The keys of a `SUBSCRIBE` frame lie within its schema.
pub(crate) proof fn lemma_subscribe_keys(
    destination: Seq<char>,
    id: Seq<char>,
    ack: Option<AckMode>,
)
    ensures
        keys_in_schema(ToServerView::Subscribe { destination, id, ack }),
{
    lemma_present_keys(subscribe_entries(destination, id, ack), ToServerType::Subscribe.schema());
}

/// The keys of a `SEND` frame lie within its schema.
pub(crate) proof fn lemma_send_keys(
    destination: Seq<char>,
    transaction: Option<Seq<char>>,
    body: Option<Seq<u8>>,
)
    ensures
        keys_in_schema(ToServerView::Send { destination, transaction, body }),
{
    lemma_present_keys(send_entries(destination, transaction), ToServerType::Send.schema());
}

/// The keys of an `ACK` and of a `NACK` frame lie within their schema.
pub(crate) proof fn lemma_answer_keys(id: Seq<char>, transaction: Option<Seq<char>>)
    ensures
        keys_in_schema(ToServerView::Ack { id, transaction }),
        keys_in_schema(ToServerView::Nack { id, transaction }),
{
    lemma_present_keys(answer_entries(id, transaction), ToServerType::Ack.schema());
    lemma_present_keys(answer_entries(id, transaction), ToServerType::Nack.schema());
}

/// The key of a frame with a single header lies within its schema.
pub(crate) proof fn lemma_single_keys(text: Seq<char>, optional: Option<Seq<char>>)
    ensures
        keys_in_schema(ToServerView::Unsubscribe { id: text }),
        keys_in_schema(ToServerView::Begin { transaction: text }),
        keys_in_schema(ToServerView::Commit { transaction: text }),
        keys_in_schema(ToServerView::Abort { transaction: text }),
        keys_in_schema(ToServerView::Disconnect { receipt: optional }),
{
    lemma_present_keys(
        entries_of(ToServerView::Unsubscribe { id: text }),
        ToServerType::Unsubscribe.schema(),
    );
    lemma_present_keys(
        entries_of(ToServerView::Begin { transaction: text }),
        ToServerType::Begin.schema(),
    );
    lemma_present_keys(
        entries_of(ToServerView::Commit { transaction: text }),
        ToServerType::Commit.schema(),
    );
    lemma_present_keys(
        entries_of(ToServerView::Abort { transaction: text }),
        ToServerType::Abort.schema(),
    );
    lemma_present_keys(
        entries_of(ToServerView::Disconnect { receipt: optional }),
        ToServerType::Disconnect.schema(),
    );
}

} // verus!
