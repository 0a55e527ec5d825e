//! Text carried by frames: UTF-8 decoding, keywords, decimal numbers.

use vstd::prelude::*;
use vstd::string::*;
use vstd::utf8::*;

verus! {

/// `core::str::from_utf8`: the bytes are accepted exactly when they are
/// well-formed UTF-8, and the string returned is made of these same bytes.
#[verifier::external_body]
pub(crate) fn from_utf8(bytes: &[u8]) -> (r: Option<&str>)
    ensures
        r is Some <==> valid_utf8(bytes@),
        r matches Some(s) ==> s.spec_bytes() == bytes@,
{
    core::str::from_utf8(bytes).ok()
}

/// The upper-case form of an ASCII letter; any other character is unchanged.
pub open spec fn ascii_upper(c: char) -> char {
    if 'a' <= c <= 'z' {
        (c as u32 - ('a' as u32 - 'A' as u32)) as char
    } else {
        c
    }
}

/// Whether `text` is `keyword` up to the case of ASCII letters.
pub open spec fn is_keyword(text: Seq<char>, keyword: Seq<char>) -> bool {
    &&& text.len() == keyword.len()
    &&& forall|i: int| 0 <= i < text.len() ==> ascii_upper(#[trigger] text[i]) == ascii_upper(keyword[i])
}

fn upper(c: char) -> (r: char)
    ensures
        r == ascii_upper(c),
{
    if 'a' <= c && c <= 'z' {
        (c as u8 - ('a' as u8 - 'A' as u8)) as char
    } else {
        c
    }
}

/// Compares `text` with `keyword`, ignoring the case of ASCII letters.
pub fn matches_keyword(text: &str, keyword: &str) -> (r: bool)
    ensures
        r == is_keyword(text@, keyword@),
{
    let n = keyword.unicode_len();
    if text.unicode_len() != n {
        return false;
    }
    let mut i: usize = 0;
    while i < n
        invariant
            n == text@.len(),
            n == keyword@.len(),
            i <= n,
            forall|j: int| 0 <= j < i ==> ascii_upper(#[trigger] text@[j]) == ascii_upper(keyword@[j]),
        decreases n - i,
    {
        if upper(text.get_char(i)) != upper(keyword.get_char(i)) {
            return false;
        }
        i += 1;
    }
    true
}

/// Whether `c` is one of the ten decimal digits.
pub open spec fn is_digit(c: char) -> bool {
    '0' <= c <= '9'
}

/// The number that a sequence of decimal digits denotes, most significant
/// digit first.
pub open spec fn digits_value(digits: Seq<char>) -> nat
    decreases digits.len(),
{
    if digits.len() == 0 {
        0
    } else {
        digits_value(digits.drop_last()) * 10 + (digits.last() as nat - '0' as nat) as nat
    }
}

/// The unsigned 64-bit number written in `text`: one or more decimal digits
/// and nothing else, denoting a value that fits.
pub open spec fn decimal(text: Seq<char>) -> Option<u64> {
    if text.len() > 0 && (forall|i: int| 0 <= i < text.len() ==> is_digit(#[trigger] text[i]))
        && digits_value(text) <= u64::MAX {
        Some(digits_value(text) as u64)
    } else {
        None
    }
}

/// A prefix of a digit sequence denotes no more than the whole sequence.
proof fn lemma_prefix_value(digits: Seq<char>, n: int)
    requires
        0 <= n <= digits.len(),
    ensures
        digits_value(digits.take(n)) <= digits_value(digits),
    decreases digits.len(),
{
    if n == digits.len() {
        assert(digits.take(n) == digits);
    } else {
        lemma_prefix_value(digits.drop_last(), n);
        assert(digits.drop_last().take(n) == digits.take(n));
    }
}

/// Reads `text` as an unsigned decimal number.
pub fn parse_decimal(text: &str) -> (r: Option<u64>)
    ensures
        r == decimal(text@),
{
    if !text.is_ascii() {
        return None;
    }
    let a = text.as_bytes();
    proof {
        is_ascii_chars_encode_utf8(text@);
    }
    if a.len() == 0 {
        return None;
    }
    let mut value: u64 = 0;
    let mut i: usize = 0;
    while i < a.len()
        invariant
            is_ascii(text),
            a@ == encode_utf8(text@),
            a@.len() == text@.len(),
            i <= a@.len(),
            forall|j: int| 0 <= j < i ==> is_digit(#[trigger] text@[j]),
            value == digits_value(text@.take(i as int)),
        decreases a@.len() - i,
    {
        proof {
            is_ascii_chars_encode_utf8(text@);
        }
        let b = a[i];
        if b < '0' as u8 || b > '9' as u8 {
            assert(!is_digit(text@[i as int]));
            return None;
        }
        let digit: u64 = (b - '0' as u8) as u64;
        proof {
            assert(text@.take(i + 1).drop_last() == text@.take(i as int));
            lemma_prefix_value(text@, i + 1);
        }
        let shifted = match value.checked_mul(10) {
            Some(v) => v,
            None => {
                return None;
            },
        };
        value = match shifted.checked_add(digit) {
            Some(v) => v,
            None => {
                return None;
            },
        };
        i += 1;
    }
    assert(text@.take(i as int) == text@);
    Some(value)
}

} // verus!
