//! Reading a frame from the front of a byte buffer: the grammar of the
//! wire format, and the function that parses by it.
//!
//! A buffer may end in the middle of a frame. The grammar tells apart the
//! buffer that more bytes may still complete (`Incomplete`) from the one
//! that no bytes can mend (`Malformed`).

use crate::error::StompError;
use crate::frame::{
    content_length, get_content_length, header_views, is_empty_slice, opt_slice, strip_cr,
    without_cr, Frame, FrameView, Headers,
};
use crate::text::{
    find_byte, find_either, first_byte, first_of, lemma_first_of, COLON, CR, LF, NUL,
};
use std::borrow::Cow;
use vstd::prelude::*;
use vstd::slice::slice_subrange;

verus! {

/// What stands at a position where a line ending is looked for.
pub enum Eol {
    /// A line ending, `\n` or `\r\n`. The position after it is given.
    Match(int),
    /// The buffer ends before it can be told.
    Incomplete,
    /// Something else.
    NoMatch,
}

/// Looks for a line ending at position `i`.
pub open spec fn eol(s: Seq<u8>, i: int) -> Eol {
    if i < 0 || i >= s.len() {
        Eol::Incomplete
    } else if s[i] == LF {
        Eol::Match(i + 1)
    } else if s[i] == CR {
        if i + 1 >= s.len() {
            Eol::Incomplete
        } else if s[i + 1] == LF {
            Eol::Match(i + 2)
        } else {
            Eol::NoMatch
        }
    } else {
        Eol::NoMatch
    }
}

/// The position of the first byte at or after `i` that does not start a
/// line ending: where the heart-beats before a frame stop. `None` where the
/// buffer ends first.
pub open spec fn skip_heartbeats(s: Seq<u8>, i: int) -> Option<int>
    decreases s.len() - i,
{
    match eol(s, i) {
        Eol::Match(next) => skip_heartbeats(s, next),
        Eol::Incomplete => None,
        Eol::NoMatch => Some(i),
    }
}

/// The position after the line endings that stand complete at `i`: where
/// the heart-beats after a frame stop.
pub open spec fn skip_trailing(s: Seq<u8>, i: int) -> int
    decreases s.len() - i,
{
    match eol(s, i) {
        Eol::Match(next) => skip_trailing(s, next),
        _ => i,
    }
}

/// What stands at a position where a header is looked for.
pub enum HeaderLine {
    /// A line `key:value`. The value has lost a trailing carriage return;
    /// the position after the line is given.
    Header { key: Seq<u8>, value: Seq<u8>, next: int },
    /// A line without a colon, which ends the headers.
    Other,
    /// The buffer ends before the line does.
    Incomplete,
}

/// Looks for a header at position `i`.
pub open spec fn header_at(s: Seq<u8>, i: int) -> HeaderLine {
    match first_of(s, i, COLON, LF) {
        None => HeaderLine::Incomplete,
        Some(sep) => if s[sep] == LF {
            HeaderLine::Other
        } else {
            match first_byte(s, sep + 1, LF) {
                None => HeaderLine::Incomplete,
                Some(end) => HeaderLine::Header {
                    key: s.subrange(i, sep),
                    value: without_cr(s.subrange(sep + 1, end)),
                    next: end + 1,
                },
            }
        },
    }
}

/// A header ends after it starts, and within the buffer.
pub proof fn lemma_header_at(s: Seq<u8>, i: int)
    requires
        0 <= i,
    ensures
        header_at(s, i) matches HeaderLine::Header { next, .. } ==> i + 1 < next <= s.len(),
{
    lemma_first_of(s, i, COLON, LF);
    match first_of(s, i, COLON, LF) {
        Some(sep) => {
            lemma_first_of(s, sep + 1, LF, LF);
        },
        None => {},
    }
}

/// The headers that stand at position `i`, one line after the other, and
/// the position of the line that ends them. `None` where the buffer ends
/// first.
pub open spec fn headers_at(s: Seq<u8>, i: int) -> Option<(Headers, int)>
    decreases s.len() - i,
    when 0 <= i
    via headers_at_decreases
{
    match header_at(s, i) {
        HeaderLine::Incomplete => None,
        HeaderLine::Other => Some((seq![], i)),
        HeaderLine::Header { key, value, next } => with_header((key, value), headers_at(s, next)),
    }
}

/// A header ends after it starts, so the headers after it are fewer bytes
/// from the end.
#[via_fn]
proof fn headers_at_decreases(s: Seq<u8>, i: int) {
    lemma_header_at(s, i);
}

/// The headers `rest` with one more in front.
pub open spec fn with_header(
    h: (Seq<u8>, Seq<u8>),
    rest: Option<(Headers, int)>,
) -> Option<(Headers, int)> {
    match rest {
        Some((headers, end)) => Some((seq![h] + headers, end)),
        None => None,
    }
}

/// The headers `rest` with `before` in front.
pub open spec fn with_headers(
    before: Headers,
    rest: Option<(Headers, int)>,
) -> Option<(Headers, int)> {
    match rest {
        Some((headers, end)) => Some((before + headers, end)),
        None => None,
    }
}

/// The body that stands at position `i`, and the position after it. Where
/// the headers announce a length, the body is that many bytes, whatever
/// they are; otherwise it is the bytes before the next NUL, and no body
/// where there are none. `None` where the buffer ends first.
pub open spec fn body_at(s: Seq<u8>, i: int, headers: Headers) -> Option<(Option<Seq<u8>>, int)> {
    match content_length(headers) {
        Some(n) => if i + n <= s.len() {
            Some((Some(s.subrange(i, i + n)), i + n))
        } else {
            None
        },
        None => match first_byte(s, i, NUL) {
            Some(nul) => Some(
                (
                    if nul == i {
                        None
                    } else {
                        Some(s.subrange(i, nul))
                    },
                    nul,
                ),
            ),
            None => None,
        },
    }
}

/// What the front of a buffer holds.
pub enum Parsed {
    /// A frame, and the number of bytes that it takes up.
    Complete { frame: FrameView, consumed: int },
    /// The beginning of a frame, or nothing yet.
    Incomplete,
    /// Bytes that are no frame.
    Malformed,
}

/// What remains to be read from the blank line on: the blank line, the
/// body and the NUL that ends the frame.
pub open spec fn parse_from_blank(
    s: Seq<u8>,
    command: Seq<u8>,
    headers: Headers,
    blank: int,
) -> Parsed {
    match eol(s, blank) {
        Eol::Incomplete => Parsed::Incomplete,
        Eol::NoMatch => Parsed::Malformed,
        Eol::Match(body_start) => match body_at(s, body_start, headers) {
            None => Parsed::Incomplete,
            Some((body, nul)) => if nul >= s.len() {
                Parsed::Incomplete
            } else if s[nul] != NUL {
                Parsed::Malformed
            } else {
                Parsed::Complete { frame: FrameView { command, headers, body }, consumed: nul + 1 }
            },
        },
    }
}

/// The first frame of a buffer, up to and with the NUL that ends it:
/// heart-beats are passed over, then come the command line, the headers,
/// a blank line, the body and a NUL.
pub open spec fn parse_one(s: Seq<u8>) -> Parsed {
    match skip_heartbeats(s, 0) {
        None => Parsed::Incomplete,
        Some(start) => match first_byte(s, start, LF) {
            None => Parsed::Incomplete,
            Some(line_end) => match headers_at(s, line_end + 1) {
                None => Parsed::Incomplete,
                Some((headers, blank)) => parse_from_blank(
                    s,
                    without_cr(s.subrange(start, line_end)),
                    headers,
                    blank,
                ),
            },
        },
    }
}

/// The first frame of a buffer, with the heart-beats that follow it.
pub open spec fn parse(s: Seq<u8>) -> Parsed {
    match parse_one(s) {
        Parsed::Complete { frame, consumed } => Parsed::Complete {
            frame,
            consumed: skip_trailing(s, consumed),
        },
        Parsed::Incomplete => Parsed::Incomplete,
        Parsed::Malformed => Parsed::Malformed,
    }
}

/// Heart-beats are passed over forwards.
pub proof fn lemma_skip_heartbeats_from(s: Seq<u8>, i: int)
    requires
        0 <= i,
    ensures
        skip_heartbeats(s, i) matches Some(start) ==> i <= start,
    decreases s.len() - i,
{
    match eol(s, i) {
        Eol::Match(next) => {
            lemma_skip_heartbeats_from(s, next);
        },
        _ => {},
    }
}

/// Headers end at or after the position where they start.
pub proof fn lemma_headers_at_end(s: Seq<u8>, i: int)
    requires
        0 <= i,
    ensures
        headers_at(s, i) matches Some((headers, blank)) ==> i <= blank,
    decreases s.len() - i,
{
    lemma_header_at(s, i);
    match header_at(s, i) {
        HeaderLine::Header { key, value, next } => {
            lemma_headers_at_end(s, next);
        },
        _ => {},
    }
}

/// Body boundaries: a frame ends within its buffer, in a NUL, and its body
/// ends right before that NUL. Where the headers announce a length, the
/// body is exactly that many bytes, whatever they are; otherwise it holds
/// no NUL, and is no body at all where it would be empty.
pub proof fn lemma_body_boundary(s: Seq<u8>)
    ensures
        parse_one(s) matches Parsed::Complete { frame, consumed } ==> {
            &&& 0 < consumed <= s.len()
            &&& s[consumed - 1] == NUL
            &&& match content_length(frame.headers) {
                Some(n) => n < consumed && frame.body == Some(
                    s.subrange(consumed - 1 - n, consumed - 1),
                ),
                None => match frame.body {
                    Some(b) => {
                        &&& 0 < b.len() < consumed
                        &&& b == s.subrange(consumed - 1 - b.len(), consumed - 1)
                        &&& forall|j: int| 0 <= j < b.len() ==> b[j] != NUL
                    },
                    None => true,
                },
            }
        },
{
    match skip_heartbeats(s, 0) {
        Some(start) => {
            lemma_skip_heartbeats_from(s, 0);
            lemma_first_of(s, start, LF, LF);
            match first_of(s, start, LF, LF) {
                Some(line_end) => {
                    lemma_headers_at_end(s, line_end + 1);
                    match headers_at(s, line_end + 1) {
                        Some((headers, blank)) => {
                            match eol(s, blank) {
                                Eol::Match(body_start) => {
                                    lemma_first_of(s, body_start, NUL, NUL);
                                },
                                _ => {},
                            }
                        },
                        None => {},
                    }
                },
                None => {},
            }
        },
        None => {},
    }
}

/// Looks for a line ending at position `i`. No line ending there is
/// `MalformedFrame`.
fn read_eol(input: &[u8], i: usize) -> (r: Result<usize, StompError>)
    requires
        i <= input@.len(),
    ensures
        match r {
            Ok(next) => eol(input@, i as int) == Eol::Match(next as int) && i < next
                <= input@.len(),
            Err(e) => if e == StompError::Incomplete {
                eol(input@, i as int) is Incomplete
            } else {
                e == StompError::MalformedFrame && eol(input@, i as int) is NoMatch
            },
        },
{
    let n: usize = input.len();
    if i >= n {
        Err(StompError::Incomplete)
    } else if input[i] == LF {
        Ok(i + 1)
    } else if input[i] == CR {
        if i + 1 >= n {
            Err(StompError::Incomplete)
        } else if input[i + 1] == LF {
            Ok(i + 2)
        } else {
            Err(StompError::MalformedFrame)
        }
    } else {
        Err(StompError::MalformedFrame)
    }
}

/// Passes over the heart-beats before a frame.
fn skip_leading_eols(input: &[u8]) -> (r: Option<usize>)
    ensures
        match skip_heartbeats(input@, 0) {
            Some(start) => r == Some(start as usize) && 0 <= start <= input@.len(),
            None => r is None,
        },
{
    let mut i: usize = 0;
    loop
        invariant
            i <= input@.len(),
            skip_heartbeats(input@, 0) == skip_heartbeats(input@, i as int),
        decreases input@.len() - i,
    {
        match read_eol(input, i) {
            Ok(next) => {
                i = next;
            },
            Err(StompError::Incomplete) => {
                return None;
            },
            Err(_) => {
                return Some(i);
            },
        }
    }
}

/// Passes over the heart-beats after a frame.
fn skip_trailing_eols(input: &[u8], from: usize) -> (r: usize)
    requires
        from <= input@.len(),
    ensures
        r == skip_trailing(input@, from as int),
        from <= r <= input@.len(),
{
    let mut i: usize = from;
    loop
        invariant
            from <= i <= input@.len(),
            skip_trailing(input@, from as int) == skip_trailing(input@, i as int),
        decreases input@.len() - i,
    {
        match read_eol(input, i) {
            Ok(next) => {
                i = next;
            },
            Err(_) => {
                return i;
            },
        }
    }
}

/// Reads the headers that stand at `from`.
fn read_headers<'a>(input: &'a [u8], from: usize) -> (r: Option<
    (Vec<(&'a [u8], Cow<'a, [u8]>)>, usize),
>)
    requires
        from <= input@.len(),
    ensures
        match headers_at(input@, from as int) {
            Some((headers, blank)) => r matches Some((read, at)) && header_views(read@) == headers
                && at == blank && at <= input@.len(),
            None => r is None,
        },
{
    let ghost s = input@;
    let mut headers: Vec<(&'a [u8], Cow<'a, [u8]>)> = Vec::new();
    let mut pos: usize = from;
    assert(with_headers(header_views(headers@), headers_at(s, pos as int)) =~= headers_at(
        s,
        from as int,
    ));
    loop
        invariant
            s == input@,
            from <= pos <= s.len(),
            headers_at(s, from as int) == with_headers(
                header_views(headers@),
                headers_at(s, pos as int),
            ),
        decreases s.len() - pos,
    {
        proof {
            lemma_first_of(s, pos as int, COLON, LF);
            lemma_header_at(s, pos as int);
        }
        let sep: usize = match find_either(input, pos, COLON, LF) {
            Some(sep) => sep,
            None => { return None; },
        };
        if input[sep] == LF {
            assert(header_views(headers@) + Headers::empty() == header_views(
                headers@,
            ));
            return Some((headers, pos));
        }
        proof {
            lemma_first_of(s, sep + 1, LF, LF);
        }
        let end: usize = match find_byte(input, sep + 1, LF) {
            Some(end) => end,
            None => { return None; },
        };
        let key: &'a [u8] = slice_subrange(input, pos, sep);
        let value: &'a [u8] = strip_cr(slice_subrange(input, sep + 1, end));
        let ghost before = header_views(headers@);
        headers.push((key, Cow::Borrowed(value)));
        proof {
            let h = (key@, value@);
            assert(header_views(headers@) == before.push(h));
            let rest = headers_at(s, end + 1);
            assert(headers_at(s, pos as int) == with_header(h, rest));
            match rest {
                Some((more, at)) => {
                    assert(before + (seq![h] + more) == before.push(h) + more);
                },
                None => {},
            }
        }
        pos = end + 1;
    }
}

/// Reads the first frame of a buffer. Returns the frame, whose parts are
/// views into the buffer, and the bytes that follow it; `Incomplete` where
/// the buffer ends before the frame does; `MalformedFrame` where the bytes
/// are no frame.
pub fn parse_frame<'a>(input: &'a [u8]) -> (r: Result<(&'a [u8], Frame<'a>), StompError>)
    ensures
        match parse(input@) {
            Parsed::Complete { frame, consumed } => r matches Ok((rest, f)) && f@ == frame
                && 0 < consumed <= input@.len() && rest@ == input@.skip(consumed),
            Parsed::Incomplete => r matches Err(e) && e == StompError::Incomplete,
            Parsed::Malformed => r matches Err(e) && e == StompError::MalformedFrame,
        },
{
    let n: usize = input.len();
    let start: usize = match skip_leading_eols(input) {
        Some(start) => start,
        None => { return Err(StompError::Incomplete); },
    };
    proof {
        lemma_first_of(input@, start as int, LF, LF);
    }
    let line_end: usize = match find_byte(input, start, LF) {
        Some(line_end) => line_end,
        None => { return Err(StompError::Incomplete); },
    };
    let command: &'a [u8] = strip_cr(slice_subrange(input, start, line_end));
    let (headers, blank) = match read_headers(input, line_end + 1) {
        Some(found) => found,
        None => { return Err(StompError::Incomplete); },
    };
    let body_start: usize = match read_eol(input, blank) {
        Ok(body_start) => body_start,
        Err(e) => { return Err(e); },
    };
    let body: Option<&'a [u8]>;
    let nul: usize;
    match get_content_length(headers.as_slice()) {
        Some(announced) => {
            let len: usize = announced as usize;
            if n - body_start < len {
                return Err(StompError::Incomplete);
            }
            nul = body_start + len;
            body = Some(slice_subrange(input, body_start, nul));
        },
        None => {
            proof {
                lemma_first_of(input@, body_start as int, NUL, NUL);
            }
            nul =
            match find_byte(input, body_start, NUL) {
                Some(nul) => nul,
                None => { return Err(StompError::Incomplete); },
            };
            body = is_empty_slice(slice_subrange(input, body_start, nul));
        },
    }
    assert(body_at(input@, body_start as int, header_views(headers@)) == Some(
        (opt_slice(body), nul as int),
    ));
    if nul >= n {
        return Err(StompError::Incomplete);
    }
    if input[nul] != NUL {
        return Err(StompError::MalformedFrame);
    }
    let end: usize = skip_trailing_eols(input, nul + 1);
    Ok((slice_subrange(input, end, n), Frame { command, headers, body }))
}

} // verus!
