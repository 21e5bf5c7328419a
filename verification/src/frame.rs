//! The frame: a command, an ordered list of headers and an optional body, as
//! it stands on the wire, and what a frame holds by way of headers.

use crate::error::StompError;
use crate::text::{
    bytes_eq, bytes_of, decimal, find_byte, first_byte, parse_u32, push_decimal, u32_value, COMMA,
    CR, LF,
};
use crate::utf8::string_from_utf8;
use std::borrow::Cow;
use vstd::prelude::*;
use vstd::slice::{slice_subrange, slice_to_vec};
use vstd::utf8::{decode_utf8, valid_utf8};

verus! {

/// One frame. Command, keys and body are views into the bytes that the
/// frame was read from, or into the message that it was made of.
#[derive(Debug)]
pub struct Frame<'a> {
    /// The command line, without its line ending.
    pub command: &'a [u8],
    /// The headers in the order of the wire. A key may occur more than once;
    /// the first occurrence is the one that counts.
    pub headers: Vec<(&'a [u8], Cow<'a, [u8]>)>,
    /// The body. An empty body is not the same as none.
    pub body: Option<&'a [u8]>,
}

/// A list of headers as byte strings: pairs of a key and a value.
pub type Headers = Seq<(Seq<u8>, Seq<u8>)>;

/// A list of keys, each with the value that it may have.
pub type Entries = Seq<(Seq<u8>, Option<Seq<u8>>)>;

/// What a frame holds, as byte strings.
pub struct FrameView {
    pub command: Seq<u8>,
    pub headers: Headers,
    pub body: Option<Seq<u8>>,
}

/// The byte strings of a list of headers.
pub open spec fn header_views<'a>(headers: Seq<(&'a [u8], Cow<'a, [u8]>)>) -> Headers {
    headers.map_values(|h: (&'a [u8], Cow<'a, [u8]>)| (h.0@, h.1@))
}

/// The bytes of an optional slice.
pub open spec fn opt_slice(b: Option<&[u8]>) -> Option<Seq<u8>> {
    match b {
        Some(s) => Some(s@),
        None => None,
    }
}

impl<'a> View for Frame<'a> {
    type V = FrameView;

    open spec fn view(&self) -> FrameView {
        FrameView {
            command: self.command@,
            headers: header_views(self.headers@),
            body: opt_slice(self.body),
        }
    }
}

/// A line without the carriage return that it may end in.
pub open spec fn without_cr(line: Seq<u8>) -> Seq<u8> {
    if line.len() > 0 && line.last() == CR {
        line.drop_last()
    } else {
        line
    }
}

/// Drops one trailing carriage return, if there is one.
pub fn strip_cr(buf: &[u8]) -> (r: &[u8])
    ensures
        r@ == without_cr(buf@),
{
    let n: usize = buf.len();
    if n > 0 && buf[n - 1] == CR {
        slice_subrange(buf, 0, n - 1)
    } else {
        buf
    }
}

/// An empty slice is no slice.
pub fn is_empty_slice(s: &[u8]) -> (r: Option<&[u8]>)
    ensures
        s@.len() == 0 ==> r is None,
        s@.len() > 0 ==> r == Some(s),
{
    if s.len() == 0 {
        None
    } else {
        Some(s)
    }
}

/// The header line that announces a body of `n` bytes.
pub open spec fn content_length_line(n: nat) -> Seq<u8> {
    bytes_of("content-length:") + decimal(n) + seq![LF]
}

/// The `content-length` line for a body, line feed included.
pub fn get_content_length_header(body: &[u8]) -> (r: Vec<u8>)
    ensures
        r@ == content_length_line(body@.len()),
{
    let mut line: Vec<u8> = slice_to_vec("content-length:".as_bytes());
    push_decimal(body.len(), &mut line);
    line.push(LF);
    line
}

/// The value of the first header with the given key.
#[verifier::opaque]
pub open spec fn lookup(headers: Headers, key: Seq<u8>) -> Option<Seq<u8>>
    decreases headers.len(),
{
    if headers.len() == 0 {
        None
    } else if headers[0].0 == key {
        Some(headers[0].1)
    } else {
        lookup(headers.drop_first(), key)
    }
}

/// The first header with a key is looked for in the first of two lists,
/// and in the second only where the first has none.
pub proof fn lemma_lookup_concat(a: Headers, b: Headers, key: Seq<u8>)
    ensures
        lookup(a + b, key) == match lookup(a, key) {
            Some(v) => Some(v),
            None => lookup(b, key),
        },
    decreases a.len(),
{
    reveal_with_fuel(lookup, 2);
    if a.len() == 0 {
        assert(a + b == b);
    } else {
        assert((a + b)[0] == a[0]);
        assert((a + b).drop_first() == a.drop_first() + b);
        lemma_lookup_concat(a.drop_first(), b, key);
    }
}

/// The value of the first header with the given key, as text. A value that
/// is not valid UTF-8 counts as absent.
pub open spec fn header_text(headers: Headers, key: Seq<u8>) -> Option<Seq<char>> {
    match lookup(headers, key) {
        Some(v) => if valid_utf8(v) {
            Some(decode_utf8(v))
        } else {
            None
        },
        None => None,
    }
}

/// The text of a header that must be there.
pub open spec fn required_text(headers: Headers, key: &'static str) -> Result<
    Seq<char>,
    StompError,
> {
    match header_text(headers, bytes_of(key)) {
        Some(t) => Ok(t),
        None => Err(StompError::MissingHeader(key)),
    }
}

/// The body length that the headers announce: what the first
/// `content-length` header writes, if that is a number that fits in 32 bits.
pub open spec fn content_length(headers: Headers) -> Option<u32> {
    match lookup(headers, bytes_of("content-length")) {
        Some(v) => u32_value(v),
        None => None,
    }
}

/// The pair of numbers that a heart-beat value writes: two decimal numbers
/// with a comma between them.
pub open spec fn heartbeat_value(s: Seq<u8>) -> Option<(u32, u32)> {
    match first_byte(s, 0, COMMA) {
        Some(c) => match (u32_value(s.take(c)), u32_value(s.skip(c + 1))) {
            (Some(a), Some(b)) => Some((a, b)),
            _ => None,
        },
        None => None,
    }
}

/// The bytes of a header's value.
pub fn value_bytes<'a, 'b>(value: &'b Cow<'a, [u8]>) -> (r: &'b [u8])
    ensures
        r@ == value@,
{
    match value {
        Cow::Borrowed(b) => b,
        Cow::Owned(v) => v.as_slice(),
    }
}

/// Finds the first header with the given key.
pub fn find_header<'a, 'b>(headers: &'b [(&'a [u8], Cow<'a, [u8]>)], key: &[u8]) -> (r: Option<
    &'b [u8],
>)
    ensures
        opt_slice(r) == lookup(header_views(headers@), key@),
{
    let ghost all = header_views(headers@);
    let mut i: usize = 0;
    assert(all.skip(0) == all);
    while i < headers.len()
        invariant
            i <= headers@.len(),
            all == header_views(headers@),
            lookup(all, key@) == lookup(all.skip(i as int), key@),
        decreases headers@.len() - i,
    {
        let h = &headers[i];
        proof {
            reveal_with_fuel(lookup, 2);
            let rest = all.skip(i as int);
            assert(rest[0] == (h.0@, h.1@));
            assert(rest.drop_first() == all.skip(i + 1));
        }
        if bytes_eq(h.0, key) {
            return Some(value_bytes(&h.1));
        }
        i += 1;
    }
    proof {
        reveal(lookup);
    }
    None
}

/// The first header with the given key, as text, if it is there and is
/// valid UTF-8.
pub fn fetch_header<'a>(headers: &[(&'a [u8], Cow<'a, [u8]>)], key: &str) -> (r: Option<String>)
    ensures
        crate::opt_text(r) == header_text(header_views(headers@), bytes_of(key)),
{
    match find_header(headers, key.as_bytes()) {
        Some(v) => string_from_utf8(slice_to_vec(v)),
        None => None,
    }
}

/// The first header with the given key, as text; its absence is an error.
pub fn expect_header<'a>(headers: &[(&'a [u8], Cow<'a, [u8]>)], key: &'static str) -> (r: Result<
    String,
    StompError,
>)
    ensures
        match r {
            Ok(s) => required_text(header_views(headers@), key) == Ok::<Seq<char>, StompError>(s@),
            Err(e) => required_text(header_views(headers@), key) == Err::<Seq<char>, StompError>(
                e,
            ),
        },
{
    match fetch_header(headers, key) {
        Some(s) => Ok(s),
        None => Err(StompError::MissingHeader(key)),
    }
}

/// The body length that the headers announce.
pub fn get_content_length<'a>(headers: &[(&'a [u8], Cow<'a, [u8]>)]) -> (r: Option<u32>)
    ensures
        r == content_length(header_views(headers@)),
{
    match find_header(headers, "content-length".as_bytes()) {
        Some(v) => parse_u32(v),
        None => None,
    }
}

/// Reads a heart-beat value, `<n>,<m>`, from the bytes of a header.
pub fn read_heartbeat_value(value: &[u8]) -> (r: Result<(u32, u32), StompError>)
    ensures
        match heartbeat_value(value@) {
            Some(pair) => r == Ok::<(u32, u32), StompError>(pair),
            None => r == Err::<(u32, u32), StompError>(
                StompError::InvalidHeaderValue("heart-beat"),
            ),
        },
{
    let n: usize = value.len();
    let comma: usize = match find_byte(value, 0, COMMA) {
        Some(c) => c,
        None => { return Err(StompError::InvalidHeaderValue("heart-beat")); },
    };
    proof {
        crate::text::lemma_first_of(value@, 0, COMMA, COMMA);
    }
    let left: Option<u32> = parse_u32(slice_subrange(value, 0, comma));
    let right: Option<u32> = parse_u32(slice_subrange(value, comma + 1, n));
    match (left, right) {
        (Some(a), Some(b)) => Ok((a, b)),
        _ => Err(StompError::InvalidHeaderValue("heart-beat")),
    }
}

/// Reads a heart-beat value, `<n>,<m>`.
pub fn parse_heartbeat(hb: &str) -> (r: Result<(u32, u32), StompError>)
    ensures
        match heartbeat_value(bytes_of(hb)) {
            Some(pair) => r == Ok::<(u32, u32), StompError>(pair),
            None => r == Err::<(u32, u32), StompError>(
                StompError::InvalidHeaderValue("heart-beat"),
            ),
        },
{
    read_heartbeat_value(hb.as_bytes())
}

/// The headers among `entries` that have a value, in their order.
pub open spec fn present(entries: Entries) -> Headers
    decreases entries.len(),
{
    if entries.len() == 0 {
        seq![]
    } else {
        let before = present(entries.drop_last());
        match entries.last().1 {
            Some(v) => before.push((entries.last().0, v)),
            None => before,
        }
    }
}

/// The bytes of an optional header value.
pub open spec fn opt_value<'a>(v: Option<Cow<'a, [u8]>>) -> Option<Seq<u8>> {
    match v {
        Some(c) => Some(c@),
        None => None,
    }
}

/// The byte strings of a list of keys with optional values.
pub open spec fn entry_views<'a>(entries: Seq<(&'a [u8], Option<Cow<'a, [u8]>>)>) -> Entries {
    entries.map_values(|e: (&'a [u8], Option<Cow<'a, [u8]>>)| (e.0@, opt_value(e.1)))
}

/// A copy of a header's value: the same borrow, or a copy of the owned bytes.
fn clone_value<'a>(value: &Cow<'a, [u8]>) -> (r: Cow<'a, [u8]>)
    ensures
        r@ == value@,
{
    match value {
        Cow::Borrowed(b) => Cow::Borrowed(*b),
        Cow::Owned(v) => Cow::Owned(slice_to_vec(v.as_slice())),
    }
}

impl<'a> Frame<'a> {
    /// A frame with the given command and body, and with those of the
    /// headers that have a value.
    pub fn new(
        command: &'a [u8],
        headers: &[(&'a [u8], Option<Cow<'a, [u8]>>)],
        body: Option<&'a [u8]>,
    ) -> (r: Frame<'a>)
        ensures
            r@ == (FrameView {
                command: command@,
                headers: present(entry_views(headers@)),
                body: opt_slice(body),
            }),
    {
        let ghost all = entry_views(headers@);
        let mut kept: Vec<(&'a [u8], Cow<'a, [u8]>)> = Vec::new();
        let mut i: usize = 0;
        while i < headers.len()
            invariant
                i <= headers@.len(),
                all == entry_views(headers@),
                header_views(kept@) == present(all.take(i as int)),
            decreases headers@.len() - i,
        {
            let entry = &headers[i];
            let ghost before = header_views(kept@);
            proof {
                let upto = all.take(i + 1);
                assert(upto.drop_last() == all.take(i as int));
                assert(upto.last() == (entry.0@, opt_value(entry.1)));
            }
            match &entry.1 {
                Some(v) => {
                    kept.push((entry.0, clone_value(v)));
                    assert(header_views(kept@) == before.push((entry.0@, v@)));
                },
                None => {},
            }
            i += 1;
        }
        assert(all.take(i as int) == all);
        Frame { command, headers: kept, body }
    }
}

} // verus!
