//! Parsing the textual inputs of a render: a pair of values split at a
//! separator character, a decimal numeral, and a complex corner point.
//!
//! The split at the first separator and the decimal numeral are verified
//! character by character. Reading a double from text stays an outside
//! affair (`crate::complex::c_of_decimal_pair`); which strings a caller's
//! own `FromStr` type accepts is that type's affair.
use vstd::prelude::*;

use crate::complex::{c_of_decimal_pair, complex_of_decimal_pair};

verus! {

use vstd::string::StrSliceExecFns;

/// The position of the first occurrence of `sep` in `s`, if any.
pub open spec fn sep_index(s: Seq<char>, sep: char) -> Option<nat>
    decreases s.len(),
{
    if s.len() == 0 {
        None
    } else if s[0] == sep {
        Some(0 as nat)
    } else {
        match sep_index(s.subrange(1, s.len() as int), sep) {
            Some(i) => Some((i + 1) as nat),
            None => None,
        }
    }
}

/// The two halves of `s` on each side of the first occurrence of `sep`,
/// if it occurs at all; the separator itself belongs to neither half.
pub open spec fn split_at_spec(s: Seq<char>, sep: char) -> Option<(Seq<char>, Seq<char>)> {
    match sep_index(s, sep) {
        Some(i) => Some((s.subrange(0, i as int), s.subrange(i as int + 1, s.len() as int))),
        None => None,
    }
}

proof fn lemma_sep_index_at(s: Seq<char>, sep: char, i: int)
    requires
        0 <= i < s.len(),
        s[i] == sep,
        forall|j: int| 0 <= j < i ==> s[j] != sep,
    ensures
        sep_index(s, sep) == Some(i as nat),
    decreases i,
{
    if i > 0 {
        lemma_sep_index_at(s.subrange(1, s.len() as int), sep, i - 1);
    }
}

proof fn lemma_sep_index_none(s: Seq<char>, sep: char)
    requires
        forall|j: int| 0 <= j < s.len() ==> s[j] != sep,
    ensures
        sep_index(s, sep) is None,
    decreases s.len(),
{
    if s.len() > 0 {
        lemma_sep_index_none(s.subrange(1, s.len() as int), sep);
    }
}

/// Split `text` at the first occurrence of `separator`: the characters
/// before it and the characters after it, or nothing when it never occurs.
pub fn split_at_separator<'a>(text: &'a str, separator: char) -> (r: Option<(&'a str, &'a str)>)
    ensures
        match r {
            Some(parts) => split_at_spec(text@, separator) == Some((parts.0@, parts.1@)),
            None => split_at_spec(text@, separator) is None,
        },
{
    let n = text.unicode_len();
    let mut i: usize = 0;
    while i < n
        invariant
            n == text@.len(),
            i <= n,
            forall|j: int| 0 <= j < i ==> text@[j] != separator,
        decreases n - i,
    {
        if text.get_char(i) == separator {
            let left = text.substring_char(0, i);
            let right = text.substring_char(i + 1, n);
            proof {
                lemma_sep_index_at(text@, separator, i as int);
            }
            return Some((left, right));
        }
        i += 1;
    }
    proof {
        lemma_sep_index_none(text@, separator);
    }
    None
}

/// Relies on `T::from_str`. Which strings parse, and to what, is the type
/// parameter's affair, so nothing is stated of the result.
#[verifier::external_body]
fn from_str_any<T: core::str::FromStr>(text: &str) -> (r: Option<T>) {
    text.parse().ok()
}

/// Split `text` at the first `separator` and parse both halves with `T`'s
/// string parser: a pair when the separator occurs and both halves parse,
/// nothing otherwise. The split is pinned exactly; which halves parse is
/// `T`'s affair.
pub fn parse_pair<T: core::str::FromStr>(text: &str, separator: char) -> (r: Option<(T, T)>)
    ensures
        split_at_spec(text@, separator) is None ==> r is None,
        r is Some ==> split_at_spec(text@, separator) is Some,
{
    match split_at_separator(text, separator) {
        None => None,
        Some(parts) => match (from_str_any::<T>(parts.0), from_str_any::<T>(parts.1)) {
            (Some(left), Some(right)) => Some((left, right)),
            _ => None,
        },
    }
}

/// Whether every character of `s` is a decimal digit, with at least one.
pub open spec fn all_digits(s: Seq<char>) -> bool {
    s.len() >= 1 && forall|j: int|
        0 <= j < s.len() ==> '0' as u32 <= (#[trigger] s[j]) as u32 <= '9' as u32
}

/// The number the decimal digit string `s` denotes.
pub open spec fn digits_value(s: Seq<char>) -> nat
    decreases s.len(),
{
    if s.len() == 0 {
        0
    } else {
        digits_value(s.drop_last()) * 10 + (s.last() as u32 - '0' as u32) as nat
    }
}

/// The numeral after an optional leading `+` sign.
pub open spec fn numeral_body(s: Seq<char>) -> Seq<char> {
    if s.len() >= 1 && s[0] == '+' {
        s.subrange(1, s.len() as int)
    } else {
        s
    }
}

/// What parsing `s` as a decimal `usize` numeral yields: the value of the
/// digits after an optional `+`, when every character is a digit and the
/// value fits; nothing on any other text.
pub open spec fn parse_usize_spec(s: Seq<char>) -> Option<usize> {
    let body = numeral_body(s);
    if all_digits(body) && digits_value(body) <= usize::MAX {
        Some(digits_value(body) as usize)
    } else {
        None
    }
}

proof fn lemma_digits_value_prefix(s: Seq<char>, k: int)
    requires
        0 <= k <= s.len(),
    ensures
        digits_value(s.subrange(0, k)) <= digits_value(s),
    decreases s.len(),
{
    if k < s.len() {
        lemma_digits_value_prefix(s.drop_last(), k);
        assert(s.drop_last().subrange(0, k) =~= s.subrange(0, k));
    } else {
        assert(s.subrange(0, k) =~= s);
    }
}

/// Parse `text` as a decimal `usize` numeral: an optional `+` sign, then
/// digits only, rejecting any other character and any value that does not
/// fit in `usize`.
pub fn parse_usize(text: &str) -> (r: Option<usize>)
    ensures
        r == parse_usize_spec(text@),
{
    let n = text.unicode_len();
    let mut start: usize = 0;
    if n >= 1 && text.get_char(0) == '+' {
        start = 1;
    }
    let ghost body = numeral_body(text@);
    proof {
        assert(body.len() == n - start);
        assert(forall|j: int| 0 <= j < body.len() ==> body[j] == text@[j + start]);
    }
    if start >= n {
        // no digits at all
        return None;
    }
    let mut value: usize = 0;
    let mut i: usize = start;
    while i < n
        invariant
            n == text@.len(),
            start <= i <= n,
            start < n,
            body == numeral_body(text@),
            body.len() == n - start,
            forall|j: int| 0 <= j < body.len() ==> body[j] == text@[j + start],
            forall|j: int|
                0 <= j < i - start ==> '0' as u32 <= (#[trigger] body[j]) as u32 <= '9' as u32,
            value == digits_value(body.subrange(0, i - start)),
        decreases n - i,
    {
        let c = text.get_char(i);
        let code = c as u32;
        let ghost k = i - start;
        proof {
            assert(body[k as int] == text@[i as int]);
        }
        if code < 48 || code > 57 {
            proof {
                assert(!('0' as u32 <= body[k as int] as u32 <= '9' as u32));
                assert(!all_digits(body));
            }
            return None;
        }
        let digit = (code - 48) as usize;
        proof {
            assert(body.subrange(0, k + 1).drop_last() =~= body.subrange(0, k));
            assert(body.subrange(0, k + 1).last() == body[k as int]);
        }
        let next = match value.checked_mul(10) {
            Some(v10) => match v10.checked_add(digit) {
                Some(v) => v,
                None => {
                    proof {
                        lemma_digits_value_prefix(body, k + 1);
                    }
                    return None;
                },
            },
            None => {
                proof {
                    lemma_digits_value_prefix(body, k + 1);
                }
                return None;
            },
        };
        value = next;
        i += 1;
    }
    proof {
        assert(body.subrange(0, n - start) =~= body);
    }
    Some(value)
}

/// What parsing a `"<left><sep><right>"` pair of decimal numerals yields:
/// the two values when the separator occurs and both halves are numerals.
pub open spec fn parse_usize_pair_spec(s: Seq<char>, sep: char) -> Option<(usize, usize)> {
    match split_at_spec(s, sep) {
        None => None,
        Some(parts) => match (parse_usize_spec(parts.0), parse_usize_spec(parts.1)) {
            (Some(left), Some(right)) => Some((left, right)),
            _ => None,
        },
    }
}

/// Parse a pair of decimal `usize` numerals split at `separator`, as an
/// image resolution such as `"400x300"` is written.
pub fn parse_usize_pair(text: &str, separator: char) -> (r: Option<(usize, usize)>)
    ensures
        r == parse_usize_pair_spec(text@, separator),
{
    match split_at_separator(text, separator) {
        None => None,
        Some(parts) => match (parse_usize(parts.0), parse_usize(parts.1)) {
            (Some(left), Some(right)) => Some((left, right)),
            _ => None,
        },
    }
}

/// What parsing `"<re>,<im>"` as a complex point yields: the complex value
/// of the two halves read as doubles, when the comma occurs and both parse.
pub open spec fn parse_complex_spec(s: Seq<char>) -> Option<num::complex::Complex64> {
    match split_at_spec(s, ',') {
        None => None,
        Some(parts) => complex_of_decimal_pair(parts.0, parts.1),
    }
}

/// Parse `"<re>,<im>"` as a point of the complex plane.
pub fn parse_complex(text: &str) -> (r: Option<num::complex::Complex64>)
    ensures
        r == parse_complex_spec(text@),
{
    match split_at_separator(text, ',') {
        None => None,
        Some(parts) => c_of_decimal_pair(parts.0, parts.1),
    }
}

} // verus!
