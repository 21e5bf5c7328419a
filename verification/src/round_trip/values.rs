//! Header values that are read back as they were written: texts, heart-beat
//! numbers and acknowledgement modes.

use crate::escaping::plain;
use crate::frame::heartbeat_value;
use crate::literals::{lemma_ack_names, lemma_name_plain, lemma_names_differ};
use crate::taxonomy::{ack_bytes, ack_mode_of, heartbeat_bytes, opt_encoded};
use crate::text::{
    decimal, is_digit, lemma_decimal_reads_back, lemma_first_of_is, BACKSLASH, COLON, COMMA, CR, LF,
};
use crate::AckMode;
use vstd::prelude::*;
use vstd::utf8::{
    decode_utf8, encode_utf8, encode_utf8_decode_utf8, encode_utf8_valid_utf8, valid_utf8,
};

verus! {

/// A text is read back from its bytes.
pub(crate) proof fn lemma_text_read_back(t: Seq<char>)
    ensures
        valid_utf8(encode_utf8(t)),
        decode_utf8(encode_utf8(t)) == t,
{
    encode_utf8_valid_utf8(t);
    encode_utf8_decode_utf8(t);
}

/// An optional text is read back from its bytes.
pub(crate) proof fn lemma_opt_text_read_back(t: Option<Seq<char>>)
    ensures
        match opt_encoded(t) {
            Some(v) => valid_utf8(v) && t == Some(decode_utf8(v)),
            None => t is None,
        },
{
    match t {
        Some(s) => {
            lemma_text_read_back(s);
        },
        None => {},
    }
}

/// A pair of heart-beat numbers is read back from what is written for it.
pub(crate) proof fn lemma_heartbeat_read_back(pair: (u32, u32))
    ensures
        plain(heartbeat_bytes(pair)),
        heartbeat_value(heartbeat_bytes(pair)) == Some(pair),
{
    let left = decimal(pair.0 as nat);
    let right = decimal(pair.1 as nat);
    let s = heartbeat_bytes(pair);
    lemma_decimal_reads_back(pair.0 as nat);
    lemma_decimal_reads_back(pair.1 as nat);
    assert forall|i: int| 0 <= i < s.len() implies #[trigger] s[i] != CR && s[i] != LF && s[i]
        != COLON && s[i] != BACKSLASH by {
        if i < left.len() {
            assert(s[i] == left[i]);
            assert(is_digit(left[i]));
        } else if i == left.len() {
            assert(s[i] == COMMA);
        } else {
            assert(s[i] == right[i - left.len() - 1]);
            assert(is_digit(right[i - left.len() - 1]));
        }
    }
    assert forall|j: int| 0 <= j < left.len() implies s[j] != COMMA by {
        assert(s[j] == left[j]);
        assert(is_digit(left[j]));
    }
    assert(s[left.len() as int] == COMMA);
    lemma_first_of_is(s, 0, COMMA, COMMA, left.len() as int);
    assert(s.take(left.len() as int) =~= left);
    assert(s.skip(left.len() as int + 1) =~= right);
}

/// An acknowledgement mode is read back from what is written for it.
pub(crate) proof fn lemma_ack_read_back(mode: AckMode)
    ensures
        plain(ack_bytes(mode)),
        ack_mode_of(ack_bytes(mode)) == Some(mode),
{
    lemma_ack_names();
    lemma_name_plain("auto", 4, 'a');
    lemma_name_plain("client", 6, 'c');
    lemma_name_plain("client-individual", 17, 'c');
    lemma_names_differ("auto", 4, 'a', "client", 6, 'c');
    lemma_names_differ("auto", 4, 'a', "client-individual", 17, 'c');
    lemma_names_differ("client", 6, 'c', "client-individual", 17, 'c');
}

} // verus!
