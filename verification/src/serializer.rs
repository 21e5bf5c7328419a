//! Frames as bytes on the wire: the layout, the escaping of headers, and the
//! function that writes a frame into a buffer.

use crate::buffer::{
    buffer_bytes, buffer_put_slice, buffer_put_u8, buffer_remaining_mut, buffer_reserve,
};
use crate::frame::{
    content_length_line, get_content_length_header, header_views, opt_slice, value_bytes, Frame,
    FrameView, Headers,
};
use crate::text::{BACKSLASH, COLON, CR, LF, LOWER_C, LOWER_N, LOWER_R, NUL};
use bytes::BytesMut;
use std::borrow::Cow;
use vstd::prelude::*;

verus! {

/// One byte of a header as it is written: the four bytes that would be
/// taken for structure become a backslash and a letter.
pub open spec fn escaped_byte(b: u8) -> Seq<u8> {
    if b == CR {
        seq![BACKSLASH, LOWER_R]
    } else if b == LF {
        seq![BACKSLASH, LOWER_N]
    } else if b == COLON {
        seq![BACKSLASH, LOWER_C]
    } else if b == BACKSLASH {
        seq![BACKSLASH, BACKSLASH]
    } else {
        seq![b]
    }
}

/// A header key or value as it is written: each byte escaped on its own.
pub open spec fn escaped(s: Seq<u8>) -> Seq<u8>
    decreases s.len(),
{
    if s.len() == 0 {
        seq![]
    } else {
        escaped(s.drop_last()) + escaped_byte(s.last())
    }
}

/// One header as a line: key, colon, value, line feed.
pub open spec fn header_line(h: (Seq<u8>, Seq<u8>)) -> Seq<u8> {
    escaped(h.0) + seq![COLON] + escaped(h.1) + seq![LF]
}

/// The lines of a list of headers, in order.
pub open spec fn header_lines(headers: Headers) -> Seq<u8>
    decreases headers.len(),
{
    if headers.len() == 0 {
        seq![]
    } else {
        header_lines(headers.drop_last()) + header_line(headers.last())
    }
}

/// What follows the headers of a frame, up to the terminator: for a body,
/// a `content-length` line, the blank line and the body's bytes as they
/// are; without one, the blank line alone.
pub open spec fn body_part(body: Option<Seq<u8>>) -> Seq<u8> {
    match body {
        Some(b) => content_length_line(b.len()) + seq![LF] + b,
        None => seq![LF],
    }
}

/// A frame as bytes on the wire: the command and a line feed, a line for
/// each header, the body part, and a NUL.
pub open spec fn wire(f: FrameView) -> Seq<u8> {
    f.command + seq![LF] + header_lines(f.headers) + body_part(f.body) + seq![NUL]
}

/// A rough size for a frame's bytes, cheap to compute: the lengths of
/// command, keys, values and body, and a fixed allowance.
pub open spec fn size_estimate(f: FrameView) -> nat {
    f.command.len() + (match f.body {
        Some(b) => b.len() + 20,
        None => 0,
    }) + plain_len(f.headers) + 30
}

/// The lengths of all keys and values together.
pub open spec fn plain_len(headers: Headers) -> nat
    decreases headers.len(),
{
    if headers.len() == 0 {
        0
    } else {
        plain_len(headers.drop_last()) + headers.last().0.len() + headers.last().1.len()
    }
}

/// The escaped form of a prefix is no longer than that of the whole.
pub proof fn lemma_escaped_prefix_len(s: Seq<u8>, k: int)
    requires
        0 <= k <= s.len(),
    ensures
        escaped(s.take(k)).len() <= escaped(s).len(),
    decreases s.len() - k,
{
    if k == s.len() {
        assert(s.take(k) == s);
    } else {
        assert(s.drop_last().take(k) == s.take(k));
        lemma_escaped_prefix_len(s.drop_last(), k);
    }
}

/// The lines of the first headers are no longer than the lines of all.
pub proof fn lemma_header_lines_prefix_len(headers: Headers, k: int)
    requires
        0 <= k <= headers.len(),
    ensures
        header_lines(headers.take(k)).len() <= header_lines(headers).len(),
    decreases headers.len() - k,
{
    if k == headers.len() {
        assert(headers.take(k) == headers);
    } else {
        assert(headers.drop_last().take(k) == headers.take(k));
        lemma_header_lines_prefix_len(headers.drop_last(), k);
    }
}

/// How many bytes may still be appended to the buffer: what is left of the
/// largest length that a buffer can have.
fn room(buffer: &BytesMut) -> (r: usize)
    ensures
        r == if buffer_bytes(*buffer).len() <= isize::MAX {
            isize::MAX - buffer_bytes(*buffer).len()
        } else {
            0
        },
{
    let len: usize = usize::MAX - buffer_remaining_mut(buffer);
    let limit: usize = isize::MAX as usize;
    if len <= limit {
        limit - len
    } else {
        0
    }
}

/// Writes one byte of a header, escaped.
fn write_escaped(b: u8, buffer: &mut BytesMut)
    requires
        buffer_bytes(*old(buffer)).len() + escaped_byte(b).len() <= isize::MAX,
    ensures
        buffer_bytes(*final(buffer)) == buffer_bytes(*old(buffer)) + escaped_byte(b),
{
    if b == CR {
        buffer_put_u8(buffer, BACKSLASH);
        buffer_put_u8(buffer, LOWER_R);
    } else if b == LF {
        buffer_put_u8(buffer, BACKSLASH);
        buffer_put_u8(buffer, LOWER_N);
    } else if b == COLON {
        buffer_put_u8(buffer, BACKSLASH);
        buffer_put_u8(buffer, LOWER_C);
    } else if b == BACKSLASH {
        buffer_put_u8(buffer, BACKSLASH);
        buffer_put_u8(buffer, BACKSLASH);
    } else {
        buffer_put_u8(buffer, b);
    }
    assert(buffer_bytes(*buffer) =~= buffer_bytes(*old(buffer)) + escaped_byte(b));
}

/// Writes a key or a value, escaped.
fn write_all_escaped(s: &[u8], buffer: &mut BytesMut)
    requires
        buffer_bytes(*old(buffer)).len() + escaped(s@).len() <= isize::MAX,
    ensures
        buffer_bytes(*final(buffer)) == buffer_bytes(*old(buffer)) + escaped(s@),
{
    let mut i: usize = 0;
    assert(buffer_bytes(*buffer) =~= buffer_bytes(*old(buffer)) + escaped(s@.take(0)));
    while i < s.len()
        invariant
            i <= s@.len(),
            buffer_bytes(*old(buffer)).len() + escaped(s@).len() <= isize::MAX,
            buffer_bytes(*buffer) == buffer_bytes(*old(buffer)) + escaped(s@.take(i as int)),
        decreases s@.len() - i,
    {
        proof {
            assert(s@.take(i + 1).drop_last() == s@.take(i as int));
            lemma_escaped_prefix_len(s@, i + 1);
        }
        write_escaped(s[i], buffer);
        assert(buffer_bytes(*buffer) =~= buffer_bytes(*old(buffer)) + escaped(s@.take(i + 1)));
        i += 1;
    }
    assert(s@.take(i as int) == s@);
}

/// Writes one header as a line.
fn write_header(key: &[u8], value: &[u8], buffer: &mut BytesMut)
    requires
        buffer_bytes(*old(buffer)).len() + header_line((key@, value@)).len() <= isize::MAX,
    ensures
        buffer_bytes(*final(buffer)) == buffer_bytes(*old(buffer)) + header_line((key@, value@)),
{
    write_all_escaped(key, buffer);
    buffer_put_u8(buffer, COLON);
    write_all_escaped(value, buffer);
    buffer_put_u8(buffer, LF);
    assert(buffer_bytes(*buffer) =~= buffer_bytes(*old(buffer)) + header_line((key@, value@)));
}

/// Writes the headers, one line each.
fn write_headers<'a>(headers: &[(&'a [u8], Cow<'a, [u8]>)], buffer: &mut BytesMut)
    requires
        buffer_bytes(*old(buffer)).len() + header_lines(header_views(headers@)).len()
            <= isize::MAX,
    ensures
        buffer_bytes(*final(buffer)) == buffer_bytes(*old(buffer)) + header_lines(
            header_views(headers@),
        ),
{
    let ghost all = header_views(headers@);
    let mut i: usize = 0;
    assert(buffer_bytes(*buffer) =~= buffer_bytes(*old(buffer)) + header_lines(all.take(0)));
    while i < headers.len()
        invariant
            i <= headers@.len(),
            all == header_views(headers@),
            buffer_bytes(*old(buffer)).len() + header_lines(all).len() <= isize::MAX,
            buffer_bytes(*buffer) == buffer_bytes(*old(buffer)) + header_lines(all.take(i as int)),
        decreases headers@.len() - i,
    {
        let h = &headers[i];
        proof {
            let upto = all.take(i + 1);
            assert(upto.drop_last() == all.take(i as int));
            assert(upto.last() == (h.0@, h.1@));
            lemma_header_lines_prefix_len(all, i + 1);
        }
        write_header(h.0, value_bytes(&h.1), buffer);
        assert(buffer_bytes(*buffer) =~= buffer_bytes(*old(buffer)) + header_lines(
            all.take(i + 1),
        ));
        i += 1;
    }
    assert(all.take(i as int) == all);
}

/// Writes what follows the headers: the announcement of a body, the blank
/// line, and the body.
fn write_body(body: Option<&[u8]>, buffer: &mut BytesMut)
    requires
        buffer_bytes(*old(buffer)).len() + body_part(opt_slice(body)).len() <= isize::MAX,
    ensures
        buffer_bytes(*final(buffer)) == buffer_bytes(*old(buffer)) + body_part(opt_slice(body)),
{
    match body {
        Some(body) => {
            let line: Vec<u8> = get_content_length_header(body);
            buffer_put_slice(buffer, line.as_slice());
            buffer_put_u8(buffer, LF);
            buffer_put_slice(buffer, body);
        },
        None => {
            buffer_put_u8(buffer, LF);
        },
    }
    assert(buffer_bytes(*buffer) =~= buffer_bytes(*old(buffer)) + body_part(opt_slice(body)));
}

/// A length as a `usize`, or `None` where it does not fit.
pub open spec fn as_length(n: nat) -> Option<usize> {
    if n <= usize::MAX {
        Some(n as usize)
    } else {
        None
    }
}

/// Adds to a length that may already be too large for a `usize`.
fn checked_sum(a: Option<usize>, b: usize, Ghost(n): Ghost<nat>) -> (r: Option<usize>)
    requires
        a == as_length(n),
    ensures
        r == as_length((n + b) as nat),
{
    match a {
        Some(v) => v.checked_add(b),
        None => None,
    }
}

/// The length of a key or a value once it is escaped.
fn escaped_len(s: &[u8]) -> (r: Option<usize>)
    ensures
        r == as_length(escaped(s@).len()),
{
    let mut total: Option<usize> = Some(0);
    let mut i: usize = 0;
    assert(escaped(s@.take(0)).len() == 0);
    while i < s.len()
        invariant
            i <= s@.len(),
            total == as_length(escaped(s@.take(i as int)).len()),
        decreases s@.len() - i,
    {
        let b: u8 = s[i];
        let width: usize = if b == CR || b == LF || b == COLON || b == BACKSLASH {
            2
        } else {
            1
        };
        proof {
            assert(s@.take(i + 1).drop_last() == s@.take(i as int));
            assert(s@.take(i + 1).last() == b);
        }
        total = checked_sum(total, width, Ghost(escaped(s@.take(i as int)).len()));
        i += 1;
    }
    assert(s@.take(i as int) == s@);
    total
}

/// The sum of two lengths, capped at `usize::MAX`.
fn saturating_sum(a: usize, b: usize) -> (r: usize)
    ensures
        r == if a + b <= usize::MAX {
            a + b
        } else {
            usize::MAX as int
        },
{
    a.saturating_add(b)
}

impl<'a> Frame<'a> {
    /// A rough size for the frame's bytes, capped at `usize::MAX`.
    pub fn size_hint(&self) -> (r: usize)
        ensures
            r == if size_estimate(self@) <= usize::MAX {
                size_estimate(self@)
            } else {
                usize::MAX as nat
            },
    {
        let mut total: usize = self.command.len();
        match self.body {
            Some(b) => {
                total = saturating_sum(total, saturating_sum(b.len(), 20));
            },
            None => {},
        }
        let ghost exact = (size_estimate(self@) - plain_len(self@.headers) - 30) as nat;
        let mut i: usize = 0;
        assert(self@.headers.take(0) =~= Headers::empty());
        while i < self.headers.len()
            invariant
                i <= self.headers@.len(),
                total == if exact + plain_len(self@.headers.take(i as int)) <= usize::MAX {
                    exact + plain_len(self@.headers.take(i as int))
                } else {
                    usize::MAX as nat
                },
            decreases self.headers@.len() - i,
        {
            let h = &self.headers[i];
            proof {
                let upto = self@.headers.take(i + 1);
                assert(upto.drop_last() == self@.headers.take(i as int));
                assert(upto.last() == (h.0@, h.1@));
            }
            total = saturating_sum(total, h.0.len());
            total = saturating_sum(total, value_bytes(&h.1).len());
            i += 1;
        }
        assert(self@.headers.take(i as int) == self@.headers);
        saturating_sum(total, 30)
    }

    /// The number of bytes that the frame takes on the wire, or `None`
    /// where that number does not fit in a `usize`.
    pub fn wire_len(&self) -> (r: Option<usize>)
        ensures
            r == as_length(wire(self@).len()),
    {
        let ghost lines = header_lines(self@.headers);
        let mut total: Option<usize> = Some(0);
        let mut i: usize = 0;
        assert(header_lines(self@.headers.take(0)).len() == 0);
        while i < self.headers.len()
            invariant
                i <= self.headers@.len(),
                total == as_length(header_lines(self@.headers.take(i as int)).len()),
            decreases self.headers@.len() - i,
        {
            let h = &self.headers[i];
            let ghost before = header_lines(self@.headers.take(i as int)).len();
            let ghost key = escaped(h.0@).len();
            let ghost value = escaped(h.1@).len();
            proof {
                let upto = self@.headers.take(i + 1);
                assert(upto.drop_last() == self@.headers.take(i as int));
                assert(upto.last() == (h.0@, h.1@));
                assert(header_lines(upto).len() == before + key + 1 + value + 1);
            }
            let key_len: Option<usize> = escaped_len(h.0);
            let value_len: Option<usize> = escaped_len(value_bytes(&h.1));
            match (key_len, value_len) {
                (Some(k), Some(v)) => {
                    total = checked_sum(total, k, Ghost(before));
                    total = checked_sum(total, 1, Ghost(before + key));
                    total = checked_sum(total, v, Ghost(before + key + 1));
                    total = checked_sum(total, 1, Ghost(before + key + 1 + value));
                },
                _ => {
                    total = None;
                },
            }
            i += 1;
        }
        assert(self@.headers.take(i as int) == self@.headers);
        let ghost head = self.command@.len() + 1 + lines.len();
        total = checked_sum(total, self.command.len(), Ghost(lines.len()));
        total = checked_sum(total, 1, Ghost(lines.len() + self.command@.len()));
        match self.body {
            Some(body) => {
                let line: Vec<u8> = get_content_length_header(body);
                total = checked_sum(total, line.len(), Ghost(head));
                total = checked_sum(total, 1, Ghost(head + line@.len()));
                total = checked_sum(total, body.len(), Ghost(head + line@.len() + 1));
            },
            None => {
                total = checked_sum(total, 1, Ghost(head));
            },
        }
        checked_sum(total, 1, Ghost(head + body_part(self@.body).len()))
    }

    /// Can the frame's bytes still be appended to the buffer?
    pub fn fits(&self, buffer: &BytesMut) -> (r: bool)
        ensures
            r == (buffer_bytes(*buffer).len() + wire(self@).len() <= isize::MAX),
    {
        match self.wire_len() {
            Some(n) => n <= room(buffer),
            None => false,
        }
    }

    /// Appends the frame's bytes to the buffer. Room for about the frame's
    /// size is reserved first. The bytes to come must not take the buffer
    /// past the largest length that a buffer can have.
    pub fn serialize(&self, buffer: &mut BytesMut)
        requires
            buffer_bytes(*old(buffer)).len() + wire(self@).len() <= isize::MAX,
        ensures
            buffer_bytes(*final(buffer)) == buffer_bytes(*old(buffer)) + wire(self@),
    {
        let estimate: usize = self.size_hint();
        if estimate <= room(buffer) {
            buffer_reserve(buffer, estimate);
        }
        buffer_put_slice(buffer, self.command);
        buffer_put_u8(buffer, LF);
        write_headers(self.headers.as_slice(), buffer);
        write_body(self.body, buffer);
        buffer_put_u8(buffer, NUL);
        assert(buffer_bytes(*buffer) =~= buffer_bytes(*old(buffer)) + wire(self@));
    }
}

} // verus!
