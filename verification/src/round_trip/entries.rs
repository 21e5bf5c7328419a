//! Frames made of a fixed list of keys with optional values, as the client
//! writes them: what such a frame holds once it is read back.

use crate::escaping::{escaped_headers, lemma_escaped_headers_plain, plain};
use crate::frame::{
    content_length, lemma_lookup_concat, lookup, present, Entries, FrameView, Headers,
};
use crate::parser::{parse, Parsed};
use crate::round_trip::{
    announced, fills_line, lemma_parse_wire, read_back, readable, without_nul,
};
use crate::serializer::wire;
use crate::taxonomy::{extra_headers, outside};
use crate::text::{bytes_of, decimal, lemma_decimal_reads_back};
use vstd::prelude::*;

verus! {

/// Do the entries have distinct keys, none of them `content-length`, and
/// do those with a value lie within `schema` and hold no byte that is
/// escaped?
#[verifier::opaque]
pub open spec fn well_formed(entries: Entries, schema: Seq<Seq<u8>>) -> bool {
    &&& forall|i: int, j: int|
        0 <= i < j < entries.len() ==> (#[trigger] entries[i]).0 != (#[trigger] entries[j]).0
    &&& forall|i: int|
        0 <= i < entries.len() ==> {
            let e = #[trigger] entries[i];
            &&& e.0 != bytes_of("content-length")
            &&& (e.1 matches Some(v) ==> schema.contains(e.0) && plain(e.0) && plain(v))
        }
}

/// Every header among `present(entries)` is one of the entries, with its
/// value.
pub(crate) proof fn lemma_present_members(entries: Entries)
    ensures
        forall|i: int|
            0 <= i < present(entries).len() ==> exists|j: int|
                0 <= j < entries.len() && #[trigger] entries[j] == ((#[trigger] present(
                    entries,
                )[i]).0, Some(present(entries)[i].1)),
    decreases entries.len(),
{
    if entries.len() > 0 {
        let init = entries.drop_last();
        lemma_present_members(init);
        assert forall|i: int| 0 <= i < present(entries).len() implies exists|j: int|
            0 <= j < entries.len() && #[trigger] entries[j] == ((#[trigger] present(
                entries,
            )[i]).0, Some(present(entries)[i].1)) by {
            if i < present(init).len() {
                assert(present(entries)[i] == present(init)[i]);
                let j = choose|j: int|
                    0 <= j < init.len() && #[trigger] init[j] == (present(init)[i].0, Some(
                        present(init)[i].1,
                    ));
                assert(entries[j] == init[j]);
            } else {
                assert(entries[entries.len() - 1] == entries.last());
            }
        }
    }
}

/// Where the keys of some entries are those of a schema, one for one, the
/// keys of the headers that are present lie within the schema.
pub(crate) proof fn lemma_present_keys(entries: Entries, schema: Seq<Seq<u8>>)
    requires
        entries.len() == schema.len(),
        forall|j: int| 0 <= j < entries.len() ==> (#[trigger] entries[j]).0 == schema[j],
    ensures
        forall|i: int|
            0 <= i < present(entries).len() ==> schema.contains(
                (#[trigger] present(entries)[i]).0,
            ),
{
    lemma_present_members(entries);
    assert forall|i: int| 0 <= i < present(entries).len() implies schema.contains(
        (#[trigger] present(entries)[i]).0,
    ) by {
        let h = present(entries)[i];
        let j = choose|j: int| 0 <= j < entries.len() && #[trigger] entries[j] == (h.0, Some(h.1));
        assert(schema[j] == h.0);
    }
}

/// Looking a key up in a list of one header.
pub(crate) proof fn lemma_lookup_single(h: (Seq<u8>, Seq<u8>), key: Seq<u8>)
    ensures
        lookup(seq![h], key) == if h.0 == key {
            Some(h.1)
        } else {
            None
        },
        lookup(Headers::empty(), key) is None,
{
    assert(seq![h][0] == h);
    assert(seq![h].drop_first() =~= Headers::empty());
    reveal_with_fuel(lookup, 2);
}

/// The headers that the last of some entries adds to those before it.
pub(crate) open spec fn last_present(entries: Entries) -> Headers {
    match entries.last().1 {
        Some(v) => seq![(entries.last().0, v)],
        None => seq![],
    }
}

/// Looking a key up among entries is looking it up among all but the last,
/// and then in the last.
pub(crate) proof fn lemma_lookup_last(entries: Entries, key: Seq<u8>)
    requires
        entries.len() > 0,
    ensures
        lookup(present(entries), key) == match lookup(present(entries.drop_last()), key) {
            Some(v) => Some(v),
            None => if entries.last().0 == key {
                entries.last().1
            } else {
                None
            },
        },
{
    let init = entries.drop_last();
    let tail = last_present(entries);
    assert(present(entries) =~= present(init) + tail);
    lemma_lookup_concat(present(init), tail, key);
    match entries.last().1 {
        Some(v) => {
            lemma_lookup_single((entries.last().0, v), key);
        },
        None => {
            lemma_lookup_single((key, key), key);
        },
    }
}

/// A key that no entry has leads to nothing.
pub(crate) proof fn lemma_lookup_absent(entries: Entries, key: Seq<u8>)
    requires
        forall|j: int| 0 <= j < entries.len() ==> (#[trigger] entries[j]).0 != key,
    ensures
        lookup(present(entries), key) is None,
    decreases entries.len(),
{
    reveal(lookup);
    if entries.len() > 0 {
        let init = entries.drop_last();
        assert forall|j: int| 0 <= j < init.len() implies (#[trigger] init[j]).0 != key by {
            assert(init[j] == entries[j]);
        }
        lemma_lookup_absent(init, key);
        lemma_lookup_last(entries, key);
        assert(entries[entries.len() - 1].0 != key);
    }
}

/// Among entries with distinct keys, a key leads to the value of its
/// entry, if that has one.
pub(crate) proof fn lemma_lookup_present(entries: Entries, i: int)
    requires
        0 <= i < entries.len(),
        forall|j: int|
            0 <= j < entries.len() && j != i ==> (#[trigger] entries[j]).0 != entries[i].0,
    ensures
        lookup(present(entries), entries[i].0) == entries[i].1,
    decreases entries.len(),
{
    let key = entries[i].0;
    let init = entries.drop_last();
    lemma_lookup_last(entries, key);
    if i == entries.len() - 1 {
        assert forall|j: int| 0 <= j < init.len() implies (#[trigger] init[j]).0 != key by {
            assert(init[j] == entries[j]);
        }
        lemma_lookup_absent(init, key);
    } else {
        assert(init[i] == entries[i]);
        assert forall|j: int| 0 <= j < init.len() && j != i implies (#[trigger] init[j]).0
            != init[i].0 by {
            assert(init[j] == entries[j]);
        }
        lemma_lookup_present(init, i);
        assert(entries[entries.len() - 1].0 != key);
    }
}

/// The headers of well-formed entries are within the schema and hold no
/// byte that is escaped.
pub(crate) proof fn lemma_present_well_formed(entries: Entries, schema: Seq<Seq<u8>>)
    requires
        well_formed(entries, schema),
    ensures
        forall|i: int|
            0 <= i < present(entries).len() ==> {
                let h = #[trigger] present(entries)[i];
                plain(h.0) && plain(h.1) && schema.contains(h.0)
            },
        escaped_headers(present(entries)) == present(entries),
{
    reveal(well_formed);
    let kept = present(entries);
    lemma_present_members(entries);
    assert forall|i: int| 0 <= i < kept.len() implies plain((#[trigger] kept[i]).0) && plain(
        kept[i].1,
    ) && schema.contains(kept[i].0) by {
        let j = choose|j: int|
            0 <= j < entries.len() && #[trigger] entries[j] == (kept[i].0, Some(kept[i].1));
        assert(plain(entries[j].0));
    }
    lemma_escaped_headers_plain(kept);
}

/// Of the headers that are read back, the announcement of the body alone
/// lies outside the schema.
pub(crate) proof fn lemma_extra_is_announced(
    entries: Entries,
    body: Option<Seq<u8>>,
    schema: Seq<Seq<u8>>,
)
    requires
        well_formed(entries, schema),
        !schema.contains(bytes_of("content-length")),
    ensures
        extra_headers(present(entries) + announced(body), schema) == announced(body),
{
    let kept = present(entries);
    let extra = announced(body);
    let keep = outside(schema);
    lemma_present_well_formed(entries, schema);
    assert(kept.filter(keep) =~= Headers::empty()) by {
        assert forall|i: int| 0 <= i < kept.len() implies !keep(#[trigger] kept[i]) by {}
        kept.lemma_all_neg_filter_empty(keep);
    }
    assert(extra.filter(keep) == extra) by {
        reveal_with_fuel(Seq::filter, 2);
        match body {
            Some(b) => {
                assert(extra.drop_last() =~= Headers::empty());
                assert(keep(extra.last()));
                assert(extra.filter(keep) =~= extra);
            },
            None => {},
        }
    }
    Seq::filter_distributes_over_add(kept, extra, keep);
    assert(kept.filter(keep) + extra.filter(keep) =~= extra);
}

/// Looking a key other than `content-length` up in what is read back is
/// looking it up among the entries.
pub(crate) proof fn lemma_lookup_read_back(entries: Entries, body: Option<Seq<u8>>, key: Seq<u8>)
    requires
        key != bytes_of("content-length"),
    ensures
        lookup(present(entries) + announced(body), key) == lookup(present(entries), key),
{
    lemma_lookup_concat(present(entries), announced(body), key);
    match body {
        Some(b) => {
            lemma_lookup_single((bytes_of("content-length"), decimal(b.len())), key);
        },
        None => {
            lemma_lookup_single((key, key), key);
        },
    }
}

/// What a frame made of well-formed entries is read back as: its headers
/// as they were and the announcement of the body, each key leading to its
/// entry's value, and nothing but the announcement outside the schema.
pub(crate) proof fn lemma_entries_read_back(
    command: Seq<u8>,
    entries: Entries,
    body: Option<Seq<u8>>,
    schema: Seq<Seq<u8>>,
)
    requires
        well_formed(entries, schema),
        !schema.contains(bytes_of("content-length")),
    ensures
        ({
            let f = FrameView { command, headers: present(entries), body };
            let read = read_back(f).headers;
            &&& read == present(entries) + announced(body)
            &&& extra_headers(read, schema) == announced(body)
            &&& forall|i: int|
                0 <= i < entries.len() ==> lookup(read, (#[trigger] entries[i]).0) == entries[i].1
        }),
{
    reveal(well_formed);
    let kept = present(entries);
    let extra = announced(body);
    lemma_present_well_formed(entries, schema);
    lemma_extra_is_announced(entries, body, schema);
    assert forall|i: int| 0 <= i < entries.len() implies lookup(
        kept + extra,
        (#[trigger] entries[i]).0,
    ) == entries[i].1 by {
        lemma_lookup_present(entries, i);
        lemma_lookup_read_back(entries, body, entries[i].0);
    }
}

/// The length that a frame announces once it is written, where none of
/// its own headers announces one: that of its body, if it fits in 32 bits.
pub(crate) proof fn lemma_announced_length(headers: Headers, body: Option<Seq<u8>>)
    requires
        lookup(headers, bytes_of("content-length")) is None,
    ensures
        content_length(headers + announced(body)) == match body {
            Some(b) => if b.len() <= u32::MAX {
                Some(b.len() as u32)
            } else {
                None
            },
            None => None,
        },
{
    let key = bytes_of("content-length");
    lemma_lookup_concat(headers, announced(body), key);
    match body {
        Some(b) => {
            lemma_lookup_single((key, decimal(b.len())), key);
            lemma_decimal_reads_back(b.len());
        },
        None => {
            lemma_lookup_single((key, key), key);
        },
    }
}

/// The bytes of a frame made of well-formed entries can be told apart
/// again.
pub(crate) proof fn lemma_entries_readable(
    command: Seq<u8>,
    entries: Entries,
    body: Option<Seq<u8>>,
    schema: Seq<Seq<u8>>,
)
    requires
        fills_line(command),
        well_formed(entries, schema),
        body matches Some(b) ==> b.len() <= u32::MAX || without_nul(b),
    ensures
        readable(FrameView { command, headers: present(entries), body }),
{
    reveal(well_formed);
    lemma_present_well_formed(entries, schema);
    lemma_lookup_absent(entries, bytes_of("content-length"));
    lemma_announced_length(present(entries), body);
}

/// A frame made of well-formed entries is read back.
pub(crate) proof fn lemma_written_frame(
    command: Seq<u8>,
    entries: Entries,
    body: Option<Seq<u8>>,
    schema: Seq<Seq<u8>>,
)
    requires
        fills_line(command),
        well_formed(entries, schema),
        !schema.contains(bytes_of("content-length")),
        body matches Some(b) ==> b.len() <= u32::MAX || without_nul(b),
    ensures
        ({
            let f = FrameView { command, headers: present(entries), body };
            let read = read_back(f);
            &&& parse(wire(f)) == (Parsed::Complete { frame: read, consumed: wire(f).len() as int })
            &&& read.command == command
            &&& read.body == body
            &&& extra_headers(read.headers, schema) == announced(body)
        }),
{
    let f = FrameView { command, headers: present(entries), body };
    lemma_entries_read_back(command, entries, body, schema);
    lemma_entries_readable(command, entries, body, schema);
    lemma_parse_wire(f);
}

/// In a frame made of well-formed entries that is read back, the key of an
/// entry leads to the entry's value.
pub(crate) proof fn lemma_written_lookup(
    command: Seq<u8>,
    entries: Entries,
    body: Option<Seq<u8>>,
    schema: Seq<Seq<u8>>,
    i: int,
)
    requires
        well_formed(entries, schema),
        !schema.contains(bytes_of("content-length")),
        0 <= i < entries.len(),
    ensures
        lookup(
            read_back(FrameView { command, headers: present(entries), body }).headers,
            entries[i].0,
        ) == entries[i].1,
{
    lemma_entries_read_back(command, entries, body, schema);
}

} // verus!
