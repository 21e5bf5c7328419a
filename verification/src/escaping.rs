//! What escaping achieves: an encoded header holds no byte that the parser
//! takes for structure, so a line that the serializer wrote is read back as
//! one header, whatever its key and value hold, and the bytes of a frame
//! hold one colon and one line feed for each header. What is read back is
//! the escaped form: the parser reverses no escape.

use crate::frame::{without_cr, FrameView, Headers};
use crate::parser::{header_at, headers_at, with_header, with_headers, HeaderLine};
use crate::serializer::{body_part, escaped, escaped_byte, header_line, header_lines, wire};
use crate::text::{lemma_first_of_is, BACKSLASH, COLON, CR, LF, NUL};
use vstd::prelude::*;

verus! {

/// Does the byte string hold none of the four bytes that are escaped?
pub open spec fn plain(s: Seq<u8>) -> bool {
    forall|i: int|
        0 <= i < s.len() ==> #[trigger] s[i] != CR && s[i] != LF && s[i] != COLON && s[i]
            != BACKSLASH
}

/// The headers as they are after a trip over the wire: keys and values in
/// their escaped form.
pub open spec fn escaped_headers(headers: Headers) -> Headers {
    headers.map_values(|h: (Seq<u8>, Seq<u8>)| (escaped(h.0), escaped(h.1)))
}

/// Escaping: whatever a key or a value holds, its escaped form holds no
/// carriage return, no line feed and no colon.
pub proof fn lemma_escaped_has_no_delimiter(s: Seq<u8>)
    ensures
        forall|i: int|
            0 <= i < escaped(s).len() ==> #[trigger] escaped(s)[i] != CR && escaped(s)[i] != LF
                && escaped(s)[i] != COLON,
    decreases s.len(),
{
    if s.len() > 0 {
        lemma_escaped_has_no_delimiter(s.drop_last());
        let before = escaped(s.drop_last());
        let last = escaped_byte(s.last());
        assert forall|i: int| 0 <= i < escaped(s).len() implies #[trigger] escaped(s)[i] != CR
            && escaped(s)[i] != LF && escaped(s)[i] != COLON by {
            if i < before.len() {
                assert(escaped(s)[i] == before[i]);
            } else {
                assert(escaped(s)[i] == last[i - before.len()]);
            }
        }
    }
}

/// Escaping leaves a string without any of the four bytes as it is.
pub proof fn lemma_escaped_plain(s: Seq<u8>)
    requires
        plain(s),
    ensures
        escaped(s) == s,
    decreases s.len(),
{
    if s.len() > 0 {
        assert forall|i: int| 0 <= i < s.drop_last().len() implies #[trigger] s.drop_last()[i] != CR
            && s.drop_last()[i] != LF && s.drop_last()[i] != COLON && s.drop_last()[i]
            != BACKSLASH by {
            assert(s.drop_last()[i] == s[i]);
        }
        lemma_escaped_plain(s.drop_last());
        assert(s[s.len() - 1] != CR);
        assert(escaped_byte(s.last()) == seq![s.last()]);
        assert(s.drop_last() + seq![s.last()] == s);
    } else {
        assert(escaped(s) == s);
    }
}

/// Escaping leaves headers without any of the four bytes as they are.
pub proof fn lemma_escaped_headers_plain(headers: Headers)
    requires
        forall|i: int| 0 <= i < headers.len() ==> plain(headers[i].0) && plain(headers[i].1),
    ensures
        escaped_headers(headers) == headers,
{
    assert forall|i: int| 0 <= i < headers.len() implies escaped_headers(headers)[i]
        == headers[i] by {
        lemma_escaped_plain(headers[i].0);
        lemma_escaped_plain(headers[i].1);
    }
    assert(escaped_headers(headers) =~= headers);
}

/// The lines of a list of headers are the first header's line and then the
/// lines of the others.
pub proof fn lemma_header_lines_front(headers: Headers)
    requires
        headers.len() > 0,
    ensures
        header_lines(headers) == header_line(headers[0]) + header_lines(headers.drop_first()),
    decreases headers.len(),
{
    if headers.len() == 1 {
        assert(headers.drop_last() == Headers::empty());
        assert(headers.drop_first() == Headers::empty());
        assert(header_lines(Headers::empty()) == Seq::<u8>::empty());
        assert(headers.last() == headers[0]);
        assert(header_lines(headers) == Seq::<u8>::empty() + header_line(headers[0]));
        assert(header_lines(headers) == header_line(headers[0]) + Seq::<u8>::empty());
    } else {
        let init = headers.drop_last();
        lemma_header_lines_front(init);
        assert(init[0] == headers[0]);
        assert(init.drop_first() == headers.drop_first().drop_last());
        assert(headers.drop_first().last() == headers.last());
        assert(header_lines(headers) == (header_line(headers[0]) + header_lines(
            init.drop_first(),
        )) + header_line(headers.last()));
        assert(header_lines(headers.drop_first()) == header_lines(init.drop_first())
            + header_line(headers.last()));
        assert(header_lines(headers) == header_line(headers[0]) + header_lines(
            headers.drop_first(),
        ));
    }
}

/// An encoded header is read back as one header. Where the line that the
/// serializer writes for `h` stands at position `i` of a buffer, the parser
/// finds there a header with the escaped key and the escaped value of `h`,
/// and goes on after the line: nothing in the key or the value ends the
/// header early.
pub proof fn lemma_header_line_read_back(s: Seq<u8>, i: int, h: (Seq<u8>, Seq<u8>))
    requires
        0 <= i,
        i + header_line(h).len() <= s.len(),
        s.subrange(i, i + header_line(h).len()) == header_line(h),
    ensures
        header_at(s, i) == (HeaderLine::Header {
            key: escaped(h.0),
            value: escaped(h.1),
            next: i + header_line(h).len(),
        }),
{
    let key = escaped(h.0);
    let value = escaped(h.1);
    let line = header_line(h);
    let sep = i + key.len();
    let end = sep + 1 + value.len();
    lemma_escaped_has_no_delimiter(h.0);
    lemma_escaped_has_no_delimiter(h.1);
    assert forall|j: int| 0 <= j < line.len() implies s[i + j] == line[j] by {
        assert(s.subrange(i, i + line.len())[j] == s[i + j]);
    }
    assert forall|j: int| i <= j < sep implies s[j] != COLON && s[j] != LF by {
        assert(s[i + (j - i)] == line[j - i]);
        assert(line[j - i] == key[j - i]);
    }
    assert(s[sep] == COLON) by {
        assert(s[i + key.len()] == line[key.len() as int]);
    }
    lemma_first_of_is(s, i, COLON, LF, sep);
    assert forall|j: int| sep + 1 <= j < end implies s[j] != LF by {
        assert(s[i + (j - i)] == line[j - i]);
        assert(line[j - i] == value[j - sep - 1]);
    }
    assert(s[end] == LF) by {
        assert(s[i + (end - i)] == line[end - i]);
    }
    lemma_first_of_is(s, sep + 1, LF, LF, end);
    assert(s.subrange(i, sep) =~= key);
    assert(s.subrange(sep + 1, end) =~= value) by {
        assert forall|j: int| 0 <= j < value.len() implies s.subrange(sep + 1, end)[j]
            == value[j] by {
            assert(s[i + (sep + 1 + j - i)] == line[sep + 1 + j - i]);
        }
    }
    if value.len() > 0 {
        assert(value[value.len() - 1] != CR);
    }
    assert(without_cr(value) == value);
}

/// Encoded headers are read back as they were written, escaped. Where the
/// lines that the serializer writes for `headers` stand at position `i` of
/// a buffer, the parser finds there the escaped headers, in order, followed
/// by whatever headers stand after those lines.
pub proof fn lemma_header_lines_read_back(s: Seq<u8>, i: int, headers: Headers)
    requires
        0 <= i,
        i + header_lines(headers).len() <= s.len(),
        s.subrange(i, i + header_lines(headers).len()) == header_lines(headers),
    ensures
        headers_at(s, i) == with_headers(
            escaped_headers(headers),
            headers_at(s, i + header_lines(headers).len()),
        ),
    decreases headers.len(),
{
    let after = headers_at(s, i + header_lines(headers).len());
    if headers.len() == 0 {
        assert(escaped_headers(headers) =~= Headers::empty());
        match after {
            Some((more, end)) => {
                assert(escaped_headers(headers) + more == more);
            },
            None => {},
        }
    } else {
        let h = headers[0];
        let tail = headers.drop_first();
        let line = header_line(h);
        let lines = header_lines(headers);
        lemma_header_lines_front(headers);
        assert(s.subrange(i, i + line.len()) =~= line) by {
            assert forall|j: int| 0 <= j < line.len() implies s.subrange(i, i + line.len())[j]
                == line[j] by {
                assert(s.subrange(i, i + lines.len())[j] == lines[j]);
            }
        }
        lemma_header_line_read_back(s, i, h);
        let next = i + line.len();
        assert(s.subrange(next, next + header_lines(tail).len()) =~= header_lines(tail)) by {
            assert forall|j: int| 0 <= j < header_lines(tail).len() implies s.subrange(
                next,
                next + header_lines(tail).len(),
            )[j] == header_lines(tail)[j] by {
                assert(s.subrange(i, i + lines.len())[line.len() + j] == lines[line.len() + j]);
            }
        }
        lemma_header_lines_read_back(s, next, tail);
        let first = (escaped(h.0), escaped(h.1));
        assert(escaped_headers(headers) =~= seq![first] + escaped_headers(tail));
        assert(headers_at(s, i) == with_header(first, headers_at(s, next)));
        match after {
            Some((more, end)) => {
                assert(seq![first] + (escaped_headers(tail) + more) == escaped_headers(headers)
                    + more);
            },
            None => {},
        }
    }
}

/// How often a byte occurs in a byte string.
pub open spec fn count(s: Seq<u8>, b: u8) -> nat
    decreases s.len(),
{
    if s.len() == 0 {
        0
    } else {
        count(s.drop_last(), b) + if s.last() == b {
            1nat
        } else {
            0nat
        }
    }
}

/// Is the byte one that ends a key or a line: a colon, a line feed or a
/// carriage return?
pub open spec fn is_delimiter(b: u8) -> bool {
    b == COLON || b == LF || b == CR
}

/// A byte occurs in one string after another as often as in the two
/// together.
pub proof fn lemma_count_concat(a: Seq<u8>, b: Seq<u8>, x: u8)
    ensures
        count(a + b, x) == count(a, x) + count(b, x),
    decreases b.len(),
{
    if b.len() == 0 {
        assert(a + b == a);
    } else {
        assert((a + b).drop_last() == a + b.drop_last());
        assert((a + b).last() == b.last());
        lemma_count_concat(a, b.drop_last(), x);
    }
}

/// A byte that is nowhere in a string occurs in it no times.
pub proof fn lemma_count_absent(s: Seq<u8>, x: u8)
    requires
        forall|i: int| 0 <= i < s.len() ==> s[i] != x,
    ensures
        count(s, x) == 0,
    decreases s.len(),
{
    if s.len() > 0 {
        assert forall|i: int| 0 <= i < s.drop_last().len() implies s.drop_last()[i] != x by {
            assert(s.drop_last()[i] == s[i]);
        }
        lemma_count_absent(s.drop_last(), x);
        assert(s[s.len() - 1] != x);
    }
}

/// A string of one byte holds that byte once and no other.
pub proof fn lemma_count_single(b: u8, x: u8)
    ensures
        count(seq![b], x) == if b == x {
            1nat
        } else {
            0nat
        },
{
    assert(seq![b].drop_last() =~= Seq::<u8>::empty());
    assert(seq![b].last() == b);
    reveal_with_fuel(count, 2);
}

/// The line of a header holds one colon, the one between key and value,
/// one line feed, the one that ends it, and no carriage return, whatever
/// the key and the value hold.
pub proof fn lemma_header_line_delimiters(h: (Seq<u8>, Seq<u8>))
    ensures
        count(header_line(h), COLON) == 1,
        count(header_line(h), LF) == 1,
        count(header_line(h), CR) == 0,
{
    let key = escaped(h.0);
    let value = escaped(h.1);
    lemma_escaped_has_no_delimiter(h.0);
    lemma_escaped_has_no_delimiter(h.1);
    assert forall|x: u8| is_delimiter(x) implies count(header_line(h), x) == count(seq![COLON], x)
        + count(seq![LF], x) by {
        lemma_count_absent(key, x);
        lemma_count_absent(value, x);
        lemma_count_concat(key, seq![COLON], x);
        lemma_count_concat(key + seq![COLON], value, x);
        lemma_count_concat(key + seq![COLON] + value, seq![LF], x);
    }
    assert(is_delimiter(COLON) && is_delimiter(LF) && is_delimiter(CR));
    lemma_count_single(COLON, COLON);
    lemma_count_single(LF, COLON);
    lemma_count_single(COLON, LF);
    lemma_count_single(LF, LF);
    lemma_count_single(COLON, CR);
    lemma_count_single(LF, CR);
}

/// The lines of `n` headers hold `n` colons, `n` line feeds and no
/// carriage return, whatever the headers hold: a scan for colons and line
/// feeds finds one header to a line and ends none early.
pub proof fn lemma_header_lines_delimiters(headers: Headers)
    ensures
        count(header_lines(headers), COLON) == headers.len(),
        count(header_lines(headers), LF) == headers.len(),
        count(header_lines(headers), CR) == 0,
    decreases headers.len(),
{
    if headers.len() > 0 {
        let before = header_lines(headers.drop_last());
        let line = header_line(headers.last());
        lemma_header_lines_delimiters(headers.drop_last());
        lemma_header_line_delimiters(headers.last());
        lemma_count_concat(before, line, COLON);
        lemma_count_concat(before, line, LF);
        lemma_count_concat(before, line, CR);
    }
}

/// Escaping: the bytes of a frame without a body hold, beside what its
/// command holds, one colon for each header, one line feed for the command
/// line, for each header and for the blank line, and no carriage return,
/// whatever the headers hold.
pub proof fn lemma_wire_delimiters(f: FrameView)
    requires
        f.body is None,
    ensures
        count(wire(f), COLON) == count(f.command, COLON) + f.headers.len(),
        count(wire(f), LF) == count(f.command, LF) + f.headers.len() + 2,
        count(wire(f), CR) == count(f.command, CR),
{
    let lines = header_lines(f.headers);
    lemma_header_lines_delimiters(f.headers);
    assert(body_part(f.body) == seq![LF]);
    assert forall|x: u8| is_delimiter(x) implies count(wire(f), x) == count(f.command, x) + count(
        seq![LF],
        x,
    ) + count(lines, x) + count(seq![LF], x) by {
        lemma_count_concat(f.command, seq![LF], x);
        lemma_count_concat(f.command + seq![LF], lines, x);
        lemma_count_concat(f.command + seq![LF] + lines, seq![LF], x);
        lemma_count_concat(f.command + seq![LF] + lines + seq![LF], seq![NUL], x);
        lemma_count_single(NUL, x);
    }
    assert(is_delimiter(COLON) && is_delimiter(LF) && is_delimiter(CR));
    lemma_count_single(LF, COLON);
    lemma_count_single(LF, LF);
    lemma_count_single(LF, CR);
}

} // verus!
