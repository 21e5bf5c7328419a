//! The names of the protocol as bytes: what the commands, header keys and
//! fixed header values are made of.

use crate::escaping::plain;
use crate::round_trip::fills_line;
use crate::taxonomy::command_of;
use crate::text::{ascii_lower, bytes_of, eq_ignoring_case, COLON, CR, LF};
use crate::ToServerType;
use vstd::prelude::*;
use vstd::utf8::{is_ascii_chars, is_ascii_chars_encode_utf8};

verus! {

/// The bytes of an ASCII text are its characters, one byte each.
pub proof fn lemma_ascii_bytes(s: &str)
    requires
        is_ascii_chars(s@),
    ensures
        bytes_of(s).len() == s@.len(),
        forall|i: int| 0 <= i < s@.len() ==> #[trigger] bytes_of(s)[i] == s@[i] as u8,
{
    is_ascii_chars_encode_utf8(s@);
}

/// Is `s` a name of `len` bytes that starts with `first` and holds no byte
/// that is escaped? Length and first byte tell the names of the protocol
/// apart.
#[verifier::opaque]
pub open spec fn named(s: &str, len: nat, first: char) -> bool {
    &&& plain(bytes_of(s))
    &&& bytes_of(s).len() == len
    &&& len > 0
    &&& bytes_of(s)[0] == first as u8
}

/// The key `content-length` holds no byte that is escaped, and the line
/// that announces a length starts with the key and a colon.
pub proof fn lemma_content_length_key()
    ensures
        named("content-length", 14, 'c'),
        bytes_of("content-length:") == bytes_of("content-length").push(COLON),
{
    reveal(named);
    reveal_strlit("content-length");
    reveal_strlit("content-length:");
    lemma_ascii_bytes("content-length");
    lemma_ascii_bytes("content-length:");
    assert(bytes_of("content-length:") =~= bytes_of("content-length").push(COLON));
}

/// The header keys of the client's messages.
pub proof fn lemma_header_names()
    ensures
        named("accept-version", 14, 'a'),
        named("host", 4, 'h'),
        named("login", 5, 'l'),
        named("passcode", 8, 'p'),
        named("heart-beat", 10, 'h'),
        named("destination", 11, 'd'),
        named("transaction", 11, 't'),
        named("id", 2, 'i'),
        named("ack", 3, 'a'),
        named("receipt", 7, 'r'),
{
    reveal(named);
    reveal_strlit("accept-version");
    reveal_strlit("host");
    reveal_strlit("login");
    reveal_strlit("passcode");
    reveal_strlit("heart-beat");
    reveal_strlit("destination");
    reveal_strlit("transaction");
    reveal_strlit("id");
    reveal_strlit("ack");
    reveal_strlit("receipt");
    lemma_ascii_bytes("accept-version");
    lemma_ascii_bytes("host");
    lemma_ascii_bytes("login");
    lemma_ascii_bytes("passcode");
    lemma_ascii_bytes("heart-beat");
    lemma_ascii_bytes("destination");
    lemma_ascii_bytes("transaction");
    lemma_ascii_bytes("id");
    lemma_ascii_bytes("ack");
    lemma_ascii_bytes("receipt");
}

/// The values of the `ack` header.
pub proof fn lemma_ack_names()
    ensures
        named("auto", 4, 'a'),
        named("client", 6, 'c'),
        named("client-individual", 17, 'c'),
{
    reveal(named);
    reveal_strlit("auto");
    reveal_strlit("client");
    reveal_strlit("client-individual");
    lemma_ascii_bytes("auto");
    lemma_ascii_bytes("client");
    lemma_ascii_bytes("client-individual");
}

/// The command and the header keys of a `MESSAGE`, and the spellings of
/// the command that is looked for before it.
pub proof fn lemma_message_names()
    ensures
        named("MESSAGE", 7, 'M'),
        named("CONNECTED", 9, 'C'),
        named("connected", 9, 'c'),
        named("destination", 11, 'd'),
        named("message-id", 10, 'm'),
        named("subscription", 12, 's'),
{
    reveal(named);
    reveal_strlit("MESSAGE");
    reveal_strlit("CONNECTED");
    reveal_strlit("connected");
    reveal_strlit("destination");
    reveal_strlit("message-id");
    reveal_strlit("subscription");
    lemma_ascii_bytes("MESSAGE");
    lemma_ascii_bytes("CONNECTED");
    lemma_ascii_bytes("connected");
    lemma_ascii_bytes("destination");
    lemma_ascii_bytes("message-id");
    lemma_ascii_bytes("subscription");
}

/// The commands as the parser compares them, in lower case.
pub proof fn lemma_lower_commands()
    ensures
        named("stomp", 5, 's'),
        named("connect", 7, 'c'),
        named("send", 4, 's'),
        named("subscribe", 9, 's'),
        named("unsubscribe", 11, 'u'),
        named("ack", 3, 'a'),
        named("nack", 4, 'n'),
        named("begin", 5, 'b'),
        named("commit", 6, 'c'),
        named("abort", 5, 'a'),
        named("disconnect", 10, 'd'),
{
    reveal(named);
    reveal_strlit("stomp");
    reveal_strlit("connect");
    reveal_strlit("send");
    reveal_strlit("subscribe");
    reveal_strlit("unsubscribe");
    reveal_strlit("ack");
    reveal_strlit("nack");
    reveal_strlit("begin");
    reveal_strlit("commit");
    reveal_strlit("abort");
    reveal_strlit("disconnect");
    lemma_ascii_bytes("stomp");
    lemma_ascii_bytes("connect");
    lemma_ascii_bytes("send");
    lemma_ascii_bytes("subscribe");
    lemma_ascii_bytes("unsubscribe");
    lemma_ascii_bytes("ack");
    lemma_ascii_bytes("nack");
    lemma_ascii_bytes("begin");
    lemma_ascii_bytes("commit");
    lemma_ascii_bytes("abort");
    lemma_ascii_bytes("disconnect");
}

/// Names that differ in length or in their first byte are different.
pub proof fn lemma_names_differ(a: &str, alen: nat, afirst: char, b: &str, blen: nat, bfirst: char)
    requires
        named(a, alen, afirst),
        named(b, blen, bfirst),
        alen != blen || afirst as u8 != bfirst as u8,
    ensures
        bytes_of(a) != bytes_of(b),
{
    reveal(named);
}

/// A name holds no byte that is escaped, and fills a line of its own: it
/// is not empty, holds no line feed and does not end in a carriage return.
pub proof fn lemma_name_plain(a: &str, len: nat, first: char)
    requires
        named(a, len, first),
    ensures
        plain(bytes_of(a)),
        bytes_of(a).len() > 0,
        forall|i: int| 0 <= i < bytes_of(a).len() ==> bytes_of(a)[i] != LF,
        bytes_of(a).last() != CR,
{
    reveal(named);
    let c = bytes_of(a);
    assert(c[c.len() - 1] != CR);
}

/// A name that holds no byte that is escaped fills a line of its own.
pub proof fn lemma_name_fills_line(a: &str, len: nat, first: char)
    requires
        named(a, len, first),
    ensures
        fills_line(bytes_of(a)),
{
    reveal(fills_line);
    lemma_name_plain(a, len, first);
}

/// A command line that spells one of the commands, in whatever case, is
/// read as that command: no two commands are spelled alike.
pub proof fn lemma_command_kinds(c: Seq<u8>)
    ensures
        eq_ignoring_case(c, bytes_of("stomp")) ==> ToServerType::of_command(c) == Some(
            ToServerType::Connect,
        ),
        eq_ignoring_case(c, bytes_of("connect")) ==> ToServerType::of_command(c) == Some(
            ToServerType::Connect,
        ),
        eq_ignoring_case(c, bytes_of("send")) ==> ToServerType::of_command(c) == Some(
            ToServerType::Send,
        ),
        eq_ignoring_case(c, bytes_of("subscribe")) ==> ToServerType::of_command(c) == Some(
            ToServerType::Subscribe,
        ),
        eq_ignoring_case(c, bytes_of("unsubscribe")) ==> ToServerType::of_command(c) == Some(
            ToServerType::Unsubscribe,
        ),
        eq_ignoring_case(c, bytes_of("ack")) ==> ToServerType::of_command(c) == Some(
            ToServerType::Ack,
        ),
        eq_ignoring_case(c, bytes_of("nack")) ==> ToServerType::of_command(c) == Some(
            ToServerType::Nack,
        ),
        eq_ignoring_case(c, bytes_of("begin")) ==> ToServerType::of_command(c) == Some(
            ToServerType::Begin,
        ),
        eq_ignoring_case(c, bytes_of("commit")) ==> ToServerType::of_command(c) == Some(
            ToServerType::Commit,
        ),
        eq_ignoring_case(c, bytes_of("abort")) ==> ToServerType::of_command(c) == Some(
            ToServerType::Abort,
        ),
        eq_ignoring_case(c, bytes_of("disconnect")) ==> ToServerType::of_command(c) == Some(
            ToServerType::Disconnect,
        ),
{
    reveal(named);
    lemma_lower_commands();
    if c.len() > 0 {
        let first = ascii_lower(c[0]);
        assert(eq_ignoring_case(c, bytes_of("stomp")) ==> first == ascii_lower(
            bytes_of("stomp")[0],
        ));
        assert(eq_ignoring_case(c, bytes_of("connect")) ==> first == ascii_lower(
            bytes_of("connect")[0],
        ));
        assert(eq_ignoring_case(c, bytes_of("send")) ==> first == ascii_lower(bytes_of("send")[0]));
        assert(eq_ignoring_case(c, bytes_of("subscribe")) ==> first == ascii_lower(
            bytes_of("subscribe")[0],
        ));
        assert(eq_ignoring_case(c, bytes_of("unsubscribe")) ==> first == ascii_lower(
            bytes_of("unsubscribe")[0],
        ));
        assert(eq_ignoring_case(c, bytes_of("ack")) ==> first == ascii_lower(bytes_of("ack")[0]));
        assert(eq_ignoring_case(c, bytes_of("nack")) ==> first == ascii_lower(bytes_of("nack")[0]));
        assert(eq_ignoring_case(c, bytes_of("begin")) ==> first == ascii_lower(
            bytes_of("begin")[0],
        ));
        assert(eq_ignoring_case(c, bytes_of("commit")) ==> first == ascii_lower(
            bytes_of("commit")[0],
        ));
        assert(eq_ignoring_case(c, bytes_of("abort")) ==> first == ascii_lower(
            bytes_of("abort")[0],
        ));
        assert(eq_ignoring_case(c, bytes_of("disconnect")) ==> first == ascii_lower(
            bytes_of("disconnect")[0],
        ));
    }
}

/// A name in upper case and the same name in lower case are spelled alike.
pub proof fn lemma_spelled_alike(upper: &str, lower: &str)
    requires
        upper@.len() == lower@.len(),
        forall|i: int|
            0 <= i < upper@.len() ==> {
                &&& 'A' <= #[trigger] upper@[i] <= 'Z'
                &&& 'a' <= lower@[i] <= 'z'
                &&& ascii_lower(upper@[i] as u8) == lower@[i] as u8
            },
    ensures
        eq_ignoring_case(bytes_of(upper), bytes_of(lower)),
        upper@.len() > 0 ==> fills_line(bytes_of(upper)),
{
    reveal(fills_line);
    assert forall|i: int| 0 <= i < lower@.len() implies '\0' <= #[trigger] lower@[i]
        <= '\u{7f}' by {
        assert('A' <= upper@[i] <= 'Z');
    }
    lemma_ascii_bytes(upper);
    lemma_ascii_bytes(lower);
    let u = bytes_of(upper);
    let l = bytes_of(lower);
    assert forall|i: int| 0 <= i < u.len() implies ascii_lower(u[i]) == ascii_lower(l[i]) && u[i]
        != LF && u[i] != CR by {
        assert('A' <= upper@[i] <= 'Z');
        assert(u[i] == upper@[i] as u8);
        assert(l[i] == lower@[i] as u8);
    }
    if u.len() > 0 {
        assert(u[u.len() - 1] != CR);
    }
}

/// The command that a client writes for a kind of message fills a line
/// of its own and is read as that kind.
pub proof fn lemma_command(kind: ToServerType)
    ensures
        fills_line(command_of(kind)),
        ToServerType::of_command(command_of(kind)) == Some(kind),
{
    match kind {
        ToServerType::Connect => {
            reveal_strlit("CONNECT");
            reveal_strlit("connect");
            lemma_spelled_alike("CONNECT", "connect");
            lemma_command_kinds(bytes_of("CONNECT"));
        },
        ToServerType::Send => {
            reveal_strlit("SEND");
            reveal_strlit("send");
            lemma_spelled_alike("SEND", "send");
            lemma_command_kinds(bytes_of("SEND"));
        },
        ToServerType::Subscribe => {
            reveal_strlit("SUBSCRIBE");
            reveal_strlit("subscribe");
            lemma_spelled_alike("SUBSCRIBE", "subscribe");
            lemma_command_kinds(bytes_of("SUBSCRIBE"));
        },
        ToServerType::Unsubscribe => {
            reveal_strlit("UNSUBSCRIBE");
            reveal_strlit("unsubscribe");
            lemma_spelled_alike("UNSUBSCRIBE", "unsubscribe");
            lemma_command_kinds(bytes_of("UNSUBSCRIBE"));
        },
        ToServerType::Ack => {
            reveal_strlit("ACK");
            reveal_strlit("ack");
            lemma_spelled_alike("ACK", "ack");
            lemma_command_kinds(bytes_of("ACK"));
        },
        ToServerType::Nack => {
            reveal_strlit("NACK");
            reveal_strlit("nack");
            lemma_spelled_alike("NACK", "nack");
            lemma_command_kinds(bytes_of("NACK"));
        },
        ToServerType::Begin => {
            reveal_strlit("BEGIN");
            reveal_strlit("begin");
            lemma_spelled_alike("BEGIN", "begin");
            lemma_command_kinds(bytes_of("BEGIN"));
        },
        ToServerType::Commit => {
            reveal_strlit("COMMIT");
            reveal_strlit("commit");
            lemma_spelled_alike("COMMIT", "commit");
            lemma_command_kinds(bytes_of("COMMIT"));
        },
        ToServerType::Abort => {
            reveal_strlit("ABORT");
            reveal_strlit("abort");
            lemma_spelled_alike("ABORT", "abort");
            lemma_command_kinds(bytes_of("ABORT"));
        },
        ToServerType::Disconnect => {
            reveal_strlit("DISCONNECT");
            reveal_strlit("disconnect");
            lemma_spelled_alike("DISCONNECT", "disconnect");
            lemma_command_kinds(bytes_of("DISCONNECT"));
        },
    }
}

} // verus!
