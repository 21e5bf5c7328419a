//! What is written can be read: the bytes of a frame parse as that frame,
//! and the frame of a client message stands for that message.

mod entries;
mod message;
mod values;
mod variants;

use crate::client::{decoded, left_by_decode};
use crate::error::StompError;
use crate::escaping::{escaped_headers, lemma_escaped_plain, lemma_header_lines_read_back, plain};
use crate::frame::{
    content_length, content_length_line, present, without_cr, FrameView, Headers,
};
use crate::literals::{lemma_content_length_key, lemma_name_plain};
use crate::parser::{
    body_at, eol, header_at, headers_at, parse, parse_from_blank, parse_one, skip_heartbeats,
    skip_trailing, Eol, Parsed,
};
use crate::round_trip::message::{
    lemma_message_decodes, lemma_message_headers, lemma_message_lookups,
    lemma_message_read_back, message_entries,
};
use crate::round_trip::variants::{
    keys_in_schema, lemma_abort_comes_back, lemma_ack_comes_back, lemma_answer_keys,
    lemma_begin_comes_back, lemma_commit_comes_back, lemma_connect_comes_back, lemma_connect_keys,
    lemma_disconnect_comes_back, lemma_nack_comes_back, lemma_send_comes_back, lemma_send_keys,
    lemma_single_keys, lemma_subscribe_comes_back, lemma_subscribe_keys,
    lemma_unsubscribe_comes_back,
};
use crate::serializer::{header_line, header_lines, wire};
use crate::taxonomy::{decode_client, encode_frame, extra_headers, kind_of};
use crate::text::{
    all_digits, bytes_of, decimal, is_digit, lemma_decimal_reads_back, lemma_first_of_is, BACKSLASH,
    COLON, CR, LF, NUL,
};
use crate::{FromServerView, MessageView, ToServerView};
use vstd::prelude::*;
use vstd::utf8::encode_utf8;

verus! {

/// The header that the serializer adds for a body.
pub open spec fn announced(body: Option<Seq<u8>>) -> Headers {
    match body {
        Some(b) => seq![(bytes_of("content-length"), decimal(b.len()))],
        None => seq![],
    }
}

/// A frame as it is read back from its own bytes: keys and values are in
/// their escaped form, and a body has brought a `content-length` header
/// with it.
pub open spec fn read_back(f: FrameView) -> FrameView {
    FrameView {
        command: f.command,
        headers: escaped_headers(f.headers) + announced(f.body),
        body: f.body,
    }
}

/// Does the byte string hold no NUL?
pub open spec fn without_nul(b: Seq<u8>) -> bool {
    forall|j: int| 0 <= j < b.len() ==> b[j] != NUL
}

/// Does the command fill a line of its own? It must not be empty, hold no
/// line feed and not end in a carriage return.
#[verifier::opaque]
pub open spec fn fills_line(command: Seq<u8>) -> bool {
    &&& command.len() > 0
    &&& forall|i: int| 0 <= i < command.len() ==> command[i] != LF
    &&& command.last() != CR
}

/// Can the frame's bytes be told apart again? The command must fill a line
/// of its own. The length that the headers announce once they are written must
/// be that of the body; where they announce none, there must be no body, or
/// one that is not empty and holds no NUL.
pub open spec fn readable(f: FrameView) -> bool {
    &&& fills_line(f.command)
    &&& match (content_length(read_back(f).headers), f.body) {
        (Some(n), Some(b)) => n == b.len(),
        (None, Some(b)) => b.len() > 0 && without_nul(b),
        (Some(n), None) => false,
        (None, None) => true,
    }
}

/// A string of digits holds no byte that is escaped.
pub proof fn lemma_digits_plain(s: Seq<u8>)
    requires
        all_digits(s),
    ensures
        plain(s),
{
    assert forall|i: int| 0 <= i < s.len() implies #[trigger] s[i] != CR && s[i] != LF && s[i]
        != COLON && s[i] != BACKSLASH by {
        assert(is_digit(s[i]));
    }
}

/// The headers that the serializer writes for a frame, the one that it adds
/// for a body among them.
pub open spec fn written_headers(f: FrameView) -> Headers {
    match f.body {
        Some(b) => f.headers.push((bytes_of("content-length"), decimal(b.len()))),
        None => f.headers,
    }
}

/// The body's bytes, or none.
pub open spec fn body_bytes(body: Option<Seq<u8>>) -> Seq<u8> {
    match body {
        Some(b) => b,
        None => seq![],
    }
}

/// The bytes of a frame, laid out with the line that announces the body
/// among the header lines.
proof fn lemma_wire_layout(f: FrameView)
    ensures
        wire(f) == f.command + seq![LF] + header_lines(written_headers(f)) + seq![LF] + body_bytes(
            f.body,
        ) + seq![NUL],
        escaped_headers(written_headers(f)) == escaped_headers(f.headers) + announced(f.body),
{
    match f.body {
        Some(b) => {
            let key = bytes_of("content-length");
            let number = decimal(b.len());
            let all = written_headers(f);
            lemma_content_length_key();
            lemma_name_plain("content-length", 14, 'c');
            lemma_decimal_reads_back(b.len());
            lemma_digits_plain(number);
            lemma_escaped_plain(key);
            lemma_escaped_plain(number);
            assert(all.drop_last() == f.headers);
            assert(all.last() == (key, number));
            assert(header_line((key, number)) =~= content_length_line(b.len()));
            assert(header_lines(all) == header_lines(f.headers) + header_line((key, number)));
            assert(wire(f) =~= f.command + seq![LF] + header_lines(all) + seq![LF] + b
                + seq![NUL]);
            assert(escaped_headers(all) =~= escaped_headers(f.headers) + announced(f.body));
        },
        None => {
            assert(wire(f) =~= f.command + seq![LF] + header_lines(f.headers) + seq![LF]
                + Seq::<u8>::empty() + seq![NUL]);
            assert(escaped_headers(f.headers) + announced(f.body) =~= escaped_headers(
                f.headers,
            ));
        },
    }
}

/// The bytes that the serializer writes for a frame are read as that frame,
/// with its headers escaped and its body announced, and are read to the
/// end.
pub proof fn lemma_parse_wire(f: FrameView)
    requires
        readable(f),
    ensures
        parse(wire(f)) == (Parsed::Complete {
            frame: read_back(f),
            consumed: wire(f).len() as int,
        }),
{
    reveal(fills_line);
    let s = wire(f);
    let command = f.command;
    let written = written_headers(f);
    let lines = header_lines(written);
    let body = body_bytes(f.body);
    let read = escaped_headers(written);
    lemma_wire_layout(f);
    let p: int = command.len() as int + 1;
    let q: int = p + lines.len() as int;
    let nul: int = q + 1 + body.len() as int;
    assert(s.len() == nul + 1);
    assert forall|j: int| 0 <= j < command.len() implies s[j] == command[j] by {}
    assert(s[command.len() as int] == LF);
    assert(s[q] == LF);
    assert(s[nul] == NUL);

    // No heart-beat stands before the command.
    assert(eol(s, 0) is NoMatch) by {
        assert(s[0] == command[0]);
        if command[0] == CR {
            assert(command[command.len() - 1] != CR);
            assert(s[1] == command[1]);
        }
    }
    assert(skip_heartbeats(s, 0) == Some(0int));

    // The command line ends where the command does.
    lemma_first_of_is(s, 0, LF, LF, command.len() as int);
    assert(s.subrange(0, command.len() as int) =~= command);
    assert(without_cr(command) == command);

    // The header lines are read back, and the blank line ends them.
    assert(s.subrange(p, p + lines.len()) =~= lines);
    lemma_header_lines_read_back(s, p, written);
    lemma_first_of_is(s, q, COLON, LF, q);
    assert(header_at(s, q) is Other);
    assert(headers_at(s, q) == Some((Headers::empty(), q)));
    assert(read + Headers::empty() == read);
    assert(headers_at(s, p) == Some((read, q)));

    // The body is as long as announced, or ends at the first NUL, or there
    // is none.
    assert(eol(s, q) == Eol::Match(q + 1));
    assert(read == read_back(f).headers);
    match f.body {
        Some(b) => {
            assert(s.subrange(q + 1, q + 1 + b.len()) =~= b);
            if content_length(read) is None {
                assert forall|j: int| q + 1 <= j < nul implies s[j] != NUL by {
                    assert(s[j] == b[j - q - 1]);
                }
                lemma_first_of_is(s, q + 1, NUL, NUL, nul);
            }
            assert(body_at(s, q + 1, read) == Some((Some(b), nul)));
        },
        None => {
            lemma_first_of_is(s, q + 1, NUL, NUL, q + 1);
            assert(body_at(s, q + 1, read) == Some((None::<Seq<u8>>, nul)));
        },
    }
    assert(parse_from_blank(s, command, read, q) == Parsed::Complete {
        frame: read_back(f),
        consumed: nul + 1,
    });
    assert(parse_one(s) == Parsed::Complete { frame: read_back(f), consumed: nul + 1 });
    assert(eol(s, nul + 1) is Incomplete);
    assert(skip_trailing(s, nul + 1) == nul + 1);
}

/// Every field is written under a key of its command's schema: the keys of
/// the frame that a client message makes lie within the schema of the
/// message's kind, whatever the message holds.
pub proof fn lemma_written_keys_in_schema(m: ToServerView, i: int)
    requires
        0 <= i < encode_frame(m).headers.len(),
    ensures
        kind_of(m).schema().contains(encode_frame(m).headers[i].0),
{
    match m {
        ToServerView::Connect { accept_version, host, login, passcode, heartbeat } => {
            lemma_connect_keys(accept_version, host, login, passcode, heartbeat);
        },
        ToServerView::Subscribe { destination, id, ack } => {
            lemma_subscribe_keys(destination, id, ack);
        },
        ToServerView::Send { destination, transaction, body } => {
            lemma_send_keys(destination, transaction, body);
        },
        ToServerView::Ack { id, transaction } => {
            lemma_answer_keys(id, transaction);
        },
        ToServerView::Nack { id, transaction } => {
            lemma_answer_keys(id, transaction);
        },
        ToServerView::Disconnect { receipt } => {
            lemma_single_keys(seq![], receipt);
        },
        ToServerView::Unsubscribe { id } => {
            lemma_single_keys(id, None);
        },
        ToServerView::Begin { transaction } => {
            lemma_single_keys(transaction, None);
        },
        ToServerView::Commit { transaction } => {
            lemma_single_keys(transaction, None);
        },
        ToServerView::Abort { transaction } => {
            lemma_single_keys(transaction, None);
        },
    }
    assert(keys_in_schema(m) ==> kind_of(m).schema().contains(
        (#[trigger] encode_frame(m).headers[i]).0,
    ));
    assert(kind_of(m).schema().contains(encode_frame(m).headers[i].0));
}

/// The frame of a `MESSAGE` as a server writes it.
pub open spec fn message_frame(
    destination: Seq<char>,
    message_id: Seq<char>,
    subscription: Seq<char>,
    body: Option<Seq<u8>>,
) -> FrameView {
    FrameView {
        command: bytes_of("MESSAGE"),
        headers: seq![
            (bytes_of("destination"), encode_utf8(destination)),
            (bytes_of("message-id"), encode_utf8(message_id)),
            (bytes_of("subscription"), encode_utf8(subscription)),
        ],
        body,
    }
}

/// Body boundaries: a `MESSAGE` that announces the length of its body is
/// decoded with that body whole, whatever bytes it holds, NUL and line
/// endings among them, and nothing of the frame is left in the buffer. The
/// announcement is kept as an extra header.
pub proof fn lemma_message_body_whole(
    destination: Seq<char>,
    message_id: Seq<char>,
    subscription: Seq<char>,
    body: Seq<u8>,
)
    requires
        unescaped(destination),
        unescaped(message_id),
        unescaped(subscription),
        body.len() <= u32::MAX,
    ensures
        ({
            let bytes = wire(message_frame(destination, message_id, subscription, Some(body)));
            &&& decoded(bytes) == Ok::<Option<MessageView<FromServerView>>, StompError>(
                Some(
                    MessageView {
                        content: FromServerView::Message {
                            destination,
                            message_id,
                            subscription,
                            body: Some(body),
                        },
                        extra_headers: announced(Some(body)),
                    },
                ),
            )
            &&& left_by_decode(bytes) == Seq::<u8>::empty()
        }),
{
    let f = message_frame(destination, message_id, subscription, Some(body));
    let bytes = wire(f);
    lemma_message_headers(destination, message_id, subscription);
    assert(f == FrameView {
        command: bytes_of("MESSAGE"),
        headers: present(message_entries(destination, message_id, subscription)),
        body: Some(body),
    });
    lemma_message_read_back(destination, message_id, subscription, body);
    lemma_message_lookups(destination, message_id, subscription, Some(body));
    lemma_message_decodes(read_back(f), destination, message_id, subscription);
    assert(bytes.skip(bytes.len() as int) =~= Seq::<u8>::empty());
}

/// Does the text hold none of the characters that are escaped?
pub open spec fn unescaped(t: Seq<char>) -> bool {
    plain(encode_utf8(t))
}

/// Does the text, if there is one, hold none of the characters that are
/// escaped?
pub open spec fn unescaped_opt(t: Option<Seq<char>>) -> bool {
    t matches Some(s) ==> unescaped(s)
}

/// Does the message come back from the wire as it went? Its texts must
/// hold none of the characters that are escaped, since no escape is
/// reversed. The body of a `SEND` must have a length that fits in 32 bits,
/// unless it holds no NUL.
pub open spec fn survives(m: ToServerView) -> bool {
    match m {
        ToServerView::Connect { accept_version, host, login, passcode, heartbeat } => {
            &&& unescaped(accept_version)
            &&& unescaped(host)
            &&& unescaped_opt(login)
            &&& unescaped_opt(passcode)
        },
        ToServerView::Disconnect { receipt } => unescaped_opt(receipt),
        ToServerView::Send { destination, transaction, body } => {
            &&& unescaped(destination)
            &&& unescaped_opt(transaction)
            &&& (body matches Some(b) ==> b.len() <= u32::MAX || without_nul(b))
        },
        ToServerView::Subscribe { destination, id, ack } => unescaped(destination) && unescaped(id),
        ToServerView::Unsubscribe { id } => unescaped(id),
        ToServerView::Ack { id, transaction } => unescaped(id) && unescaped_opt(transaction),
        ToServerView::Nack { id, transaction } => unescaped(id) && unescaped_opt(transaction),
        ToServerView::Begin { transaction } => unescaped(transaction),
        ToServerView::Commit { transaction } => unescaped(transaction),
        ToServerView::Abort { transaction } => unescaped(transaction),
    }
}

/// The round trip of a message: its frame's bytes parse, to their end, as
/// a frame that stands for the message again. The one thing that the trip
/// adds is the announcement of a body among the extra headers.
pub open spec fn comes_back(m: ToServerView) -> bool {
    let f = encode_frame(m);
    &&& parse(wire(f)) == (Parsed::Complete { frame: read_back(f), consumed: wire(f).len() as int })
    &&& decode_client(read_back(f)) == Ok::<MessageView<ToServerView>, StompError>(
        MessageView { content: m, extra_headers: announced(f.body) },
    )
}

/// Round trip: a client message that survives the wire comes back from it.
/// The bytes written for it parse, to their end, as a frame that stands
/// for the same message, with no extra header but the announcement of a
/// body.
pub proof fn lemma_round_trip(m: ToServerView)
    requires
        survives(m),
    ensures
        comes_back(m),
{
    match m {
        ToServerView::Connect { accept_version, host, login, passcode, heartbeat } => {
            lemma_connect_comes_back(accept_version, host, login, passcode, heartbeat);
        },
        ToServerView::Disconnect { receipt } => {
            lemma_disconnect_comes_back(receipt);
        },
        ToServerView::Send { destination, transaction, body } => {
            lemma_send_comes_back(destination, transaction, body);
        },
        ToServerView::Subscribe { destination, id, ack } => {
            lemma_subscribe_comes_back(destination, id, ack);
        },
        ToServerView::Unsubscribe { id } => {
            lemma_unsubscribe_comes_back(id);
        },
        ToServerView::Ack { id, transaction } => {
            lemma_ack_comes_back(id, transaction);
        },
        ToServerView::Nack { id, transaction } => {
            lemma_nack_comes_back(id, transaction);
        },
        ToServerView::Begin { transaction } => {
            lemma_begin_comes_back(transaction);
        },
        ToServerView::Commit { transaction } => {
            lemma_commit_comes_back(transaction);
        },
        ToServerView::Abort { transaction } => {
            lemma_abort_comes_back(transaction);
        },
    }
}

} // verus!
