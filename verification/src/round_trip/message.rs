//! A `MESSAGE` with a body of any bytes: what its frame is read back as.

use crate::error::StompError;
use crate::frame::{lookup, present, Entries, FrameView};
use crate::literals::{
    lemma_content_length_key, lemma_message_names, lemma_name_fills_line, lemma_name_plain,
    lemma_names_differ,
};
use crate::parser::{parse, Parsed};
use crate::round_trip::entries::{lemma_written_frame, lemma_written_lookup, well_formed};
use crate::round_trip::values::lemma_text_read_back;
use crate::round_trip::{announced, fills_line, message_frame, read_back, unescaped};
use crate::serializer::wire;
use crate::taxonomy::{decode_server, extra_headers, message_content, message_schema};
use crate::text::bytes_of;
use crate::{FromServerView, MessageView};
use vstd::prelude::*;
use vstd::utf8::encode_utf8;

verus! {

/// The headers of a `MESSAGE`, each with its value.
pub(crate) open spec fn message_entries(
    destination: Seq<char>,
    message_id: Seq<char>,
    subscription: Seq<char>,
) -> Entries {
    seq![
        (bytes_of("destination"), Some(encode_utf8(destination))),
        (bytes_of("message-id"), Some(encode_utf8(message_id))),
        (bytes_of("subscription"), Some(encode_utf8(subscription))),
    ]
}

/// The headers of a `MESSAGE` are all present.
pub(crate) proof fn lemma_message_headers(
    destination: Seq<char>,
    message_id: Seq<char>,
    subscription: Seq<char>,
)
    ensures
        present(message_entries(destination, message_id, subscription)) == message_frame(
            destination,
            message_id,
            subscription,
            None,
        ).headers,
{
    let entries = message_entries(destination, message_id, subscription);
    reveal_with_fuel(present, 4);
    assert(entries.drop_last() =~= seq![entries[0], entries[1]]);
    assert(entries.drop_last().drop_last() =~= seq![entries[0]]);
    assert(entries.drop_last().drop_last().drop_last() =~= Entries::empty());
    assert(present(entries) =~= message_frame(destination, message_id, subscription, None).headers);
}

/// The headers of a `MESSAGE` whose texts hold no byte that is escaped are
/// well formed.
pub(crate) proof fn lemma_message_entries(
    destination: Seq<char>,
    message_id: Seq<char>,
    subscription: Seq<char>,
)
    requires
        unescaped(destination),
        unescaped(message_id),
        unescaped(subscription),
    ensures
        well_formed(message_entries(destination, message_id, subscription), message_schema()),
        !message_schema().contains(bytes_of("content-length")),
{
    reveal(well_formed);
    let entries = message_entries(destination, message_id, subscription);
    let schema = message_schema();
    lemma_message_names();
    lemma_content_length_key();
    lemma_names_differ("destination", 11, 'd', "message-id", 10, 'm');
    lemma_names_differ("destination", 11, 'd', "subscription", 12, 's');
    lemma_names_differ("message-id", 10, 'm', "subscription", 12, 's');
    lemma_names_differ("destination", 11, 'd', "content-length", 14, 'c');
    lemma_names_differ("message-id", 10, 'm', "content-length", 14, 'c');
    lemma_names_differ("subscription", 12, 's', "content-length", 14, 'c');
    lemma_name_plain("destination", 11, 'd');
    lemma_name_plain("message-id", 10, 'm');
    lemma_name_plain("subscription", 12, 's');
    assert(schema[0] == entries[0].0);
    assert(schema[1] == entries[1].0);
    assert(schema[2] == entries[2].0);
}

/// A frame with the command and the headers of a `MESSAGE` stands for
/// that message, with the body of the frame.
pub(crate) proof fn lemma_message_decodes(
    read: FrameView,
    destination: Seq<char>,
    message_id: Seq<char>,
    subscription: Seq<char>,
)
    requires
        read.command == bytes_of("MESSAGE"),
        lookup(read.headers, bytes_of("destination")) == Some(encode_utf8(destination)),
        lookup(read.headers, bytes_of("message-id")) == Some(encode_utf8(message_id)),
        lookup(read.headers, bytes_of("subscription")) == Some(encode_utf8(subscription)),
    ensures
        decode_server(read) == Ok::<MessageView<FromServerView>, StompError>(
            MessageView {
                content: FromServerView::Message {
                    destination,
                    message_id,
                    subscription,
                    body: read.body,
                },
                extra_headers: extra_headers(read.headers, message_schema()),
            },
        ),
{
    lemma_message_names();
    lemma_names_differ("MESSAGE", 7, 'M', "CONNECTED", 9, 'C');
    lemma_names_differ("MESSAGE", 7, 'M', "connected", 9, 'c');
    lemma_text_read_back(destination);
    lemma_text_read_back(message_id);
    lemma_text_read_back(subscription);
    assert(message_content(read) == Ok::<FromServerView, StompError>(
        FromServerView::Message { destination, message_id, subscription, body: read.body },
    ));
}

/// The command `MESSAGE` fills a line of its own.
pub(crate) proof fn lemma_message_command()
    ensures
        fills_line(bytes_of("MESSAGE")),
{
    lemma_message_names();
    lemma_name_fills_line("MESSAGE", 7, 'M');
}

/// The bytes of a `MESSAGE` with a body are read back, to their end, with
/// body and command as they were and the announcement of the body as the
/// one header outside the schema.
pub(crate) proof fn lemma_message_read_back(
    destination: Seq<char>,
    message_id: Seq<char>,
    subscription: Seq<char>,
    body: Seq<u8>,
)
    requires
        unescaped(destination),
        unescaped(message_id),
        unescaped(subscription),
        body.len() <= u32::MAX,
    ensures
        ({
            let f = FrameView {
                command: bytes_of("MESSAGE"),
                headers: present(message_entries(destination, message_id, subscription)),
                body: Some(body),
            };
            let read = read_back(f);
            &&& parse(wire(f)) == (Parsed::Complete { frame: read, consumed: wire(f).len() as int })
            &&& read.command == bytes_of("MESSAGE")
            &&& read.body == Some(body)
            &&& extra_headers(read.headers, message_schema()) == announced(Some(body))
        }),
{
    let entries = message_entries(destination, message_id, subscription);
    lemma_message_entries(destination, message_id, subscription);
    lemma_message_command();
    lemma_written_frame(bytes_of("MESSAGE"), entries, Some(body), message_schema());
}

/// In a `MESSAGE` that is read back, each key of the schema leads to its
/// text.
pub(crate) proof fn lemma_message_lookups(
    destination: Seq<char>,
    message_id: Seq<char>,
    subscription: Seq<char>,
    body: Option<Seq<u8>>,
)
    requires
        unescaped(destination),
        unescaped(message_id),
        unescaped(subscription),
    ensures
        ({
            let read = read_back(
                FrameView {
                    command: bytes_of("MESSAGE"),
                    headers: present(message_entries(destination, message_id, subscription)),
                    body,
                },
            ).headers;
            &&& lookup(read, bytes_of("destination")) == Some(encode_utf8(destination))
            &&& lookup(read, bytes_of("message-id")) == Some(encode_utf8(message_id))
            &&& lookup(read, bytes_of("subscription")) == Some(encode_utf8(subscription))
        }),
{
    let entries = message_entries(destination, message_id, subscription);
    let command = bytes_of("MESSAGE");
    lemma_message_entries(destination, message_id, subscription);
    lemma_written_lookup(command, entries, body, message_schema(), 0);
    lemma_written_lookup(command, entries, body, message_schema(), 1);
    lemma_written_lookup(command, entries, body, message_schema(), 2);
}

} // verus!
