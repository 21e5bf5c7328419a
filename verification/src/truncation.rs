//! Buffers that end too early. The front of a buffer never parses
//! differently from the whole: at most it is incomplete. So a frame that is
//! cut anywhere before its NUL is incomplete, the codec leaves it in
//! place, and once the missing bytes have arrived the buffer decodes as if
//! it had come in one piece.

use crate::client::{decoded, left_by_decode};
use crate::error::StompError;
use crate::frame::{without_cr, Headers};
use crate::parser::{
    body_at, eol, header_at, headers_at, lemma_body_boundary, lemma_header_at,
    lemma_headers_at_end, lemma_skip_heartbeats_from, parse, parse_from_blank, parse_one,
    skip_heartbeats, Eol, HeaderLine, Parsed,
};
use crate::text::{first_of, lemma_first_of, lemma_first_of_is, COLON, LF, NUL};
use crate::{FromServerView, MessageView};
use vstd::prelude::*;

verus! {

/// A line ending is found in the front of a buffer as in the whole, unless
/// the front ends first.
proof fn lemma_eol_prefix(s: Seq<u8>, k: int, i: int)
    requires
        0 <= k <= s.len(),
    ensures
        eol(s.take(k), i) is Incomplete || eol(s.take(k), i) == eol(s, i),
{
}

/// Heart-beats are passed over in the front of a buffer as in the whole,
/// unless the front ends first.
proof fn lemma_skip_heartbeats_prefix(s: Seq<u8>, k: int, i: int)
    requires
        0 <= k <= s.len(),
    ensures
        skip_heartbeats(s.take(k), i) is None || skip_heartbeats(s.take(k), i) == skip_heartbeats(
            s,
            i,
        ),
    decreases k - i,
{
    lemma_eol_prefix(s, k, i);
    match eol(s.take(k), i) {
        Eol::Match(next) => {
            lemma_skip_heartbeats_prefix(s, k, next);
        },
        _ => {},
    }
}

/// A byte is found in the front of a buffer where it is found in the
/// whole, unless the front ends first.
proof fn lemma_first_of_prefix(s: Seq<u8>, k: int, from: int, x: u8, y: u8)
    requires
        0 <= k <= s.len(),
        0 <= from,
    ensures
        first_of(s.take(k), from, x, y) is None || first_of(s.take(k), from, x, y) == first_of(
            s,
            from,
            x,
            y,
        ),
{
    let t = s.take(k);
    lemma_first_of(t, from, x, y);
    match first_of(t, from, x, y) {
        Some(j) => {
            assert(t[j] == s[j]);
            assert forall|m: int| from <= m < j implies s[m] != x && s[m] != y by {
                assert(t[m] == s[m]);
            }
            lemma_first_of_is(s, from, x, y, j);
        },
        None => {},
    }
}

/// A header is read from the front of a buffer as from the whole, unless
/// the front ends first.
proof fn lemma_header_at_prefix(s: Seq<u8>, k: int, i: int)
    requires
        0 <= k <= s.len(),
        0 <= i,
    ensures
        header_at(s.take(k), i) is Incomplete || header_at(s.take(k), i) == header_at(s, i),
{
    let t = s.take(k);
    lemma_first_of_prefix(s, k, i, COLON, LF);
    lemma_first_of(t, i, COLON, LF);
    match first_of(t, i, COLON, LF) {
        Some(sep) => {
            assert(t[sep] == s[sep]);
            if t[sep] != LF {
                lemma_first_of_prefix(s, k, sep + 1, LF, LF);
                lemma_first_of(t, sep + 1, LF, LF);
                match first_of(t, sep + 1, LF, LF) {
                    Some(end) => {
                        assert(t.subrange(i, sep) =~= s.subrange(i, sep));
                        assert(t.subrange(sep + 1, end) =~= s.subrange(sep + 1, end));
                    },
                    None => {},
                }
            }
        },
        None => {},
    }
}

/// Headers are read from the front of a buffer as from the whole, unless
/// the front ends first.
proof fn lemma_headers_at_prefix(s: Seq<u8>, k: int, i: int)
    requires
        0 <= k <= s.len(),
        0 <= i,
    ensures
        headers_at(s.take(k), i) is None || headers_at(s.take(k), i) == headers_at(s, i),
    decreases k - i,
{
    let t = s.take(k);
    lemma_header_at_prefix(s, k, i);
    lemma_header_at(t, i);
    match header_at(t, i) {
        HeaderLine::Header { key, value, next } => {
            lemma_headers_at_prefix(s, k, next);
        },
        _ => {},
    }
}

/// A body is read from the front of a buffer as from the whole, unless the
/// front ends first.
proof fn lemma_body_at_prefix(s: Seq<u8>, k: int, i: int, headers: Headers)
    requires
        0 <= k <= s.len(),
        0 <= i,
    ensures
        body_at(s.take(k), i, headers) is None || body_at(s.take(k), i, headers) == body_at(
            s,
            i,
            headers,
        ),
{
    let t = s.take(k);
    match crate::frame::content_length(headers) {
        Some(n) => {
            if i + n <= t.len() {
                assert(t.subrange(i, i + n) =~= s.subrange(i, i + n));
            }
        },
        None => {
            lemma_first_of_prefix(s, k, i, NUL, NUL);
            lemma_first_of(t, i, NUL, NUL);
            match first_of(t, i, NUL, NUL) {
                Some(nul) => {
                    assert(t.subrange(i, nul) =~= s.subrange(i, nul));
                },
                None => {},
            }
        },
    }
}

/// What follows the headers is read from the front of a buffer as from the
/// whole, unless the front ends first.
proof fn lemma_parse_from_blank_prefix(
    s: Seq<u8>,
    k: int,
    command: Seq<u8>,
    headers: Headers,
    blank: int,
)
    requires
        0 <= k <= s.len(),
        0 <= blank,
    ensures
        parse_from_blank(s.take(k), command, headers, blank) is Incomplete || parse_from_blank(
            s.take(k),
            command,
            headers,
            blank,
        ) == parse_from_blank(s, command, headers, blank),
{
    let t = s.take(k);
    lemma_eol_prefix(s, k, blank);
    match eol(t, blank) {
        Eol::Match(body_start) => {
            lemma_body_at_prefix(s, k, body_start, headers);
            lemma_first_of(t, body_start, NUL, NUL);
            match body_at(t, body_start, headers) {
                Some((body, nul)) => {
                    if nul < t.len() {
                        assert(t[nul] == s[nul]);
                    }
                },
                None => {},
            }
        },
        _ => {},
    }
}

/// The front of a buffer never parses differently from the whole: it holds
/// the same frame, or is malformed in the same way, or is incomplete.
pub proof fn lemma_parse_one_prefix(s: Seq<u8>, k: int)
    requires
        0 <= k <= s.len(),
    ensures
        parse_one(s.take(k)) is Incomplete || parse_one(s.take(k)) == parse_one(s),
{
    let t = s.take(k);
    lemma_skip_heartbeats_prefix(s, k, 0);
    match skip_heartbeats(t, 0) {
        Some(start) => {
            lemma_skip_heartbeats_from(t, 0);
            lemma_first_of_prefix(s, k, start, LF, LF);
            lemma_first_of(t, start, LF, LF);
            match first_of(t, start, LF, LF) {
                Some(line_end) => {
                    assert(t.subrange(start, line_end) =~= s.subrange(start, line_end));
                    lemma_headers_at_prefix(s, k, line_end + 1);
                    match headers_at(t, line_end + 1) {
                        Some((headers, blank)) => {
                            lemma_headers_at_end(t, line_end + 1);
                            lemma_parse_from_blank_prefix(
                                s,
                                k,
                                without_cr(t.subrange(start, line_end)),
                                headers,
                                blank,
                            );
                        },
                        None => {},
                    }
                },
                None => {},
            }
        },
        None => {},
    }
}

/// Incomplete frames: a buffer that holds a frame, cut anywhere before the
/// NUL that ends the frame, is incomplete. The codec then gives no message
/// and leaves the buffer as it is, and with the missing bytes appended the
/// buffer decodes as the whole does.
pub proof fn lemma_truncated_frame(s: Seq<u8>, k: int)
    requires
        parse_one(s) matches Parsed::Complete { frame, consumed } && 0 <= k < consumed,
    ensures
        parse(s.take(k)) is Incomplete,
        left_by_decode(s.take(k)) == s.take(k),
        decoded(s.take(k)) == Ok::<Option<MessageView<FromServerView>>, StompError>(None),
        decoded(left_by_decode(s.take(k)) + s.skip(k)) == decoded(s),
        left_by_decode(left_by_decode(s.take(k)) + s.skip(k)) == left_by_decode(s),
{
    lemma_body_boundary(s);
    lemma_parse_one_prefix(s, k);
    lemma_body_boundary(s.take(k));
    assert(s.take(k) + s.skip(k) =~= s);
}

/// Bytes that arrive later change nothing that was settled: a buffer that
/// holds a frame holds the same frame with more bytes after it, and a
/// malformed buffer stays malformed.
pub proof fn lemma_more_bytes(s: Seq<u8>, more: Seq<u8>)
    requires
        !(parse_one(s) is Incomplete),
    ensures
        parse_one(s + more) == parse_one(s),
{
    assert((s + more).take(s.len() as int) =~= s);
    lemma_parse_one_prefix(s + more, s.len() as int);
}

} // verus!
