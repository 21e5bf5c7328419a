//! Bytes as text: the delimiters of the wire format, comparison of byte
//! strings, scanning for a delimiter, and unsigned decimal numbers.

use vstd::prelude::*;

verus! {

/// The frame terminator.
pub const NUL: u8 = 0x00;

/// Line feed, which ends every line of a frame.
pub const LF: u8 = 0x0a;

/// Carriage return, accepted before a line feed.
pub const CR: u8 = 0x0d;

/// The sign that a decimal number may start with.
pub const PLUS: u8 = 0x2b;

/// Separates the two numbers of a heart-beat value.
pub const COMMA: u8 = 0x2c;

/// The digit zero; the other digits follow it.
pub const DIGIT_ZERO: u8 = 0x30;

/// Separates a header's key from its value.
pub const COLON: u8 = 0x3a;

/// Starts an escape sequence in an encoded header.
pub const BACKSLASH: u8 = 0x5c;

/// Upper-case `A`.
pub const UPPER_A: u8 = 0x41;

/// Upper-case `Z`.
pub const UPPER_Z: u8 = 0x5a;

/// Lower-case `c`, the escape letter of a colon.
pub const LOWER_C: u8 = 0x63;

/// Lower-case `n`, the escape letter of a line feed.
pub const LOWER_N: u8 = 0x6e;

/// Lower-case `r`, the escape letter of a carriage return.
pub const LOWER_R: u8 = 0x72;

/// The bytes of a string: its UTF-8 encoding.
pub open spec fn bytes_of(s: &str) -> Seq<u8> {
    vstd::utf8::encode_utf8(s@)
}

/// Are the two byte strings the same?
pub fn bytes_eq(a: &[u8], b: &[u8]) -> (r: bool)
    ensures
        r == (a@ == b@),
{
    if a.len() != b.len() {
        return false;
    }
    let mut i: usize = 0;
    while i < a.len()
        invariant
            i <= a@.len(),
            a@.len() == b@.len(),
            a@.take(i as int) == b@.take(i as int),
        decreases a@.len() - i,
    {
        if a[i] != b[i] {
            return false;
        }
        assert(a@.take(i + 1) == a@.take(i as int).push(a@[i as int]));
        assert(b@.take(i + 1) == b@.take(i as int).push(b@[i as int]));
        i += 1;
    }
    assert(a@.take(i as int) == a@);
    assert(b@.take(i as int) == b@);
    true
}

/// A byte with an ASCII upper-case letter turned into its lower-case form.
pub open spec fn ascii_lower(b: u8) -> u8 {
    if UPPER_A <= b <= UPPER_Z {
        (b + 0x20) as u8
    } else {
        b
    }
}

/// Equality of byte strings up to the case of their ASCII letters.
pub open spec fn eq_ignoring_case(a: Seq<u8>, b: Seq<u8>) -> bool {
    &&& a.len() == b.len()
    &&& forall|i: int| 0 <= i < a.len() ==> ascii_lower(a[i]) == ascii_lower(b[i])
}

/// A byte with an ASCII upper-case letter turned into its lower-case form.
fn to_ascii_lower(b: u8) -> (r: u8)
    ensures
        r == ascii_lower(b),
{
    if UPPER_A <= b && b <= UPPER_Z {
        b + 0x20
    } else {
        b
    }
}

/// Are the two byte strings the same, ASCII letters compared without regard
/// to case?
pub fn eq_ignore_ascii_case(a: &[u8], b: &[u8]) -> (r: bool)
    ensures
        r == eq_ignoring_case(a@, b@),
{
    if a.len() != b.len() {
        return false;
    }
    let mut i: usize = 0;
    while i < a.len()
        invariant
            i <= a@.len(),
            a@.len() == b@.len(),
            forall|j: int| 0 <= j < i ==> ascii_lower(a@[j]) == ascii_lower(b@[j]),
        decreases a@.len() - i,
    {
        if to_ascii_lower(a[i]) != to_ascii_lower(b[i]) {
            return false;
        }
        i += 1;
    }
    true
}

/// The first index at or after `from` whose byte is `x` or `y`.
pub open spec fn first_of(s: Seq<u8>, from: int, x: u8, y: u8) -> Option<int>
    decreases s.len() - from,
{
    if from < 0 || from >= s.len() {
        None
    } else if s[from] == x || s[from] == y {
        Some(from)
    } else {
        first_of(s, from + 1, x, y)
    }
}

/// The first index at or after `from` whose byte is `x`.
pub open spec fn first_byte(s: Seq<u8>, from: int, x: u8) -> Option<int> {
    first_of(s, from, x, x)
}

/// What `first_of` finds is the least index with one of the two bytes, and it
/// finds nothing only where there is none.
pub proof fn lemma_first_of(s: Seq<u8>, from: int, x: u8, y: u8)
    requires
        0 <= from,
    ensures
        match first_of(s, from, x, y) {
            Some(k) => {
                &&& from <= k < s.len()
                &&& (s[k] == x || s[k] == y)
                &&& forall|j: int| from <= j < k ==> s[j] != x && s[j] != y
            },
            None => forall|j: int| from <= j < s.len() ==> s[j] != x && s[j] != y,
        },
    decreases s.len() - from,
{
    if from < s.len() && !(s[from] == x || s[from] == y) {
        lemma_first_of(s, from + 1, x, y);
    }
}

/// The least index at or after `from` with one of the two bytes is what
/// `first_of` finds.
pub proof fn lemma_first_of_is(s: Seq<u8>, from: int, x: u8, y: u8, k: int)
    requires
        0 <= from <= k < s.len(),
        s[k] == x || s[k] == y,
        forall|j: int| from <= j < k ==> s[j] != x && s[j] != y,
    ensures
        first_of(s, from, x, y) == Some(k),
    decreases k - from,
{
    if from < k {
        lemma_first_of_is(s, from + 1, x, y, k);
    }
}

/// Where neither byte occurs at or after `from`, `first_of` finds nothing.
pub proof fn lemma_first_of_none(s: Seq<u8>, from: int, x: u8, y: u8)
    requires
        0 <= from,
        forall|j: int| from <= j < s.len() ==> s[j] != x && s[j] != y,
    ensures
        first_of(s, from, x, y) is None,
    decreases s.len() - from,
{
    if from < s.len() {
        lemma_first_of_none(s, from + 1, x, y);
    }
}

/// Scans for the first of two bytes at or after `from`.
pub fn find_either(s: &[u8], from: usize, x: u8, y: u8) -> (r: Option<usize>)
    ensures
        match r {
            Some(k) => first_of(s@, from as int, x, y) == Some(k as int),
            None => first_of(s@, from as int, x, y) is None,
        },
{
    let mut i: usize = from;
    while i < s.len()
        invariant
            from <= i,
            forall|j: int| from <= j < i ==> s@[j] != x && s@[j] != y,
        decreases s@.len() - i,
    {
        if s[i] == x || s[i] == y {
            proof {
                lemma_first_of_is(s@, from as int, x, y, i as int);
            }
            return Some(i);
        }
        i += 1;
    }
    proof {
        lemma_first_of_none(s@, from as int, x, y);
    }
    None
}

/// Scans for the first `x` at or after `from`.
pub fn find_byte(s: &[u8], from: usize, x: u8) -> (r: Option<usize>)
    ensures
        match r {
            Some(k) => first_byte(s@, from as int, x) == Some(k as int),
            None => first_byte(s@, from as int, x) is None,
        },
{
    find_either(s, from, x, x)
}

/// Is the byte an ASCII decimal digit?
pub open spec fn is_digit(b: u8) -> bool {
    DIGIT_ZERO <= b <= DIGIT_ZERO + 9
}

/// Is every byte of the string a decimal digit?
pub open spec fn all_digits(s: Seq<u8>) -> bool {
    forall|i: int| 0 <= i < s.len() ==> is_digit(#[trigger] s[i])
}

/// The number that a string of decimal digits writes.
pub open spec fn digits_value(s: Seq<u8>) -> nat
    decreases s.len(),
{
    if s.len() == 0 {
        0
    } else {
        (digits_value(s.drop_last()) * 10 + (s.last() - DIGIT_ZERO)) as nat
    }
}

/// The number that a byte string writes in decimal: an optional `+`, then at
/// least one digit and nothing else.
pub open spec fn decimal_value(s: Seq<u8>) -> Option<nat> {
    let digits = if s.len() > 0 && s[0] == PLUS {
        s.skip(1)
    } else {
        s
    };
    if digits.len() > 0 && all_digits(digits) {
        Some(digits_value(digits))
    } else {
        None
    }
}

/// The `u32` that a byte string writes in decimal, if it writes one.
pub open spec fn u32_value(s: Seq<u8>) -> Option<u32> {
    match decimal_value(s) {
        Some(v) => if v <= u32::MAX {
            Some(v as u32)
        } else {
            None
        },
        None => None,
    }
}

/// A longer string of digits writes no smaller a number than its prefix.
pub proof fn lemma_digits_value_prefix(s: Seq<u8>, k: int)
    requires
        0 <= k <= s.len(),
        all_digits(s),
    ensures
        digits_value(s.take(k)) <= digits_value(s),
    decreases s.len() - k,
{
    if k == s.len() {
        assert(s.take(k) == s);
    } else {
        let t = s.drop_last();
        assert(t.take(k) == s.take(k));
        lemma_digits_value_prefix(t, k);
    }
}

/// Reads a `u32` written in decimal, with an optional leading `+`.
pub fn parse_u32(s: &[u8]) -> (r: Option<u32>)
    ensures
        r == u32_value(s@),
{
    let n: usize = s.len();
    let start: usize = if n > 0 && s[0] == PLUS {
        1
    } else {
        0
    };
    if start == n {
        return None;
    }
    let ghost digits = s@.skip(start as int);
    assert(s@.skip(0) == s@);
    let mut i: usize = start;
    let mut acc: u64 = 0;
    while i < n
        invariant
            start <= i <= n,
            n == s@.len(),
            digits == s@.skip(start as int),
            digits == if s@.len() > 0 && s@[0] == PLUS {
                s@.skip(1)
            } else {
                s@
            },
            all_digits(digits.take(i - start)),
            acc == digits_value(digits.take(i - start)),
            acc <= u32::MAX,
        decreases n - i,
    {
        let b: u8 = s[i];
        assert(digits[i - start] == b);
        if b < DIGIT_ZERO || b > DIGIT_ZERO + 9 {
            assert(!is_digit(digits[i - start]));
            return None;
        }
        let next: u64 = acc * 10 + (b - DIGIT_ZERO) as u64;
        proof {
            let longer = digits.take(i - start + 1);
            assert(longer.drop_last() == digits.take(i - start));
            assert(longer.last() == b);
            assert forall|j: int| 0 <= j < longer.len() implies is_digit(#[trigger] longer[j]) by {
                if j < i - start {
                    assert(digits.take(i - start)[j] == longer[j]);
                }
            }
            assert(digits_value(longer) == next);
        }
        if next > 0xffff_ffff {
            proof {
                if all_digits(digits) {
                    lemma_digits_value_prefix(digits, i - start + 1);
                }
            }
            return None;
        }
        acc = next;
        i += 1;
    }
    assert(digits.take(i - start) == digits);
    Some(acc as u32)
}

/// A number written in decimal, without sign or leading zeros.
pub open spec fn decimal(n: nat) -> Seq<u8>
    decreases n,
{
    if n < 10 {
        seq![(DIGIT_ZERO + n) as u8]
    } else {
        decimal(n / 10).push((DIGIT_ZERO + n % 10) as u8)
    }
}

/// Appends a number in decimal to `out`.
pub fn push_decimal(n: usize, out: &mut Vec<u8>)
    ensures
        final(out)@ == old(out)@ + decimal(n as nat),
    decreases n,
{
    if n >= 10 {
        push_decimal(n / 10, out);
    }
    let digit: u8 = DIGIT_ZERO + (n % 10) as u8;
    out.push(digit);
    assert(final(out)@ == old(out)@ + decimal(n as nat)) by {
        if n >= 10 {
            assert(old(out)@ + decimal(n as nat) == (old(out)@ + decimal((n / 10) as nat)).push(
                digit,
            ));
        } else {
            assert(old(out)@ + decimal(n as nat) == old(out)@.push(digit));
        }
    }
}

/// A number written in decimal is a string of digits, not empty, and reads
/// back as the number.
pub proof fn lemma_decimal_reads_back(n: nat)
    ensures
        decimal(n).len() > 0,
        all_digits(decimal(n)),
        digits_value(decimal(n)) == n,
        decimal_value(decimal(n)) == Some(n),
    decreases n,
{
    if n < 10 {
        let d = decimal(n);
        assert(d.drop_last() == Seq::<u8>::empty());
        assert(digits_value(d.drop_last()) == 0);
    } else {
        lemma_decimal_reads_back(n / 10);
        let d = decimal(n);
        let init = decimal(n / 10);
        assert(d.drop_last() == init);
        assert forall|i: int| 0 <= i < d.len() implies is_digit(#[trigger] d[i]) by {
            if i < init.len() {
                assert(d[i] == init[i]);
            }
        }
    }
    assert(decimal(n)[0] != PLUS);
}

} // verus!
