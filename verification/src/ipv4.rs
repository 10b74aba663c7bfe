//! IPv4 address literals in dotted-decimal notation.

use crate::text::{
    ascii_len, char_at, find, is_field, lemma_fields_apart, lemma_occurrences_absent,
    lemma_occurrences_cut, lemma_occurrences_past_field, occurrences,
};
use vstd::prelude::*;
use vstd::string::*;

verus! {

/// `c` is one of the ten decimal digits.
pub open spec fn is_decimal_digit(c: char) -> bool {
    '0' <= c <= '9'
}

/// The number that the decimal digits of `s` write.
pub open spec fn decimal_value(s: Seq<char>) -> nat
    decreases s.len(),
{
    if s.len() == 0 {
        0
    } else {
        10 * decimal_value(s.drop_last()) + (s.last() as u32 - '0' as u32) as nat
    }
}

/// `s` writes one byte of an address: one to three decimal digits, no zero in
/// front of another digit, and a value of at most 255.
pub open spec fn is_octet(s: Seq<char>) -> bool {
    &&& 1 <= s.len() <= 3
    &&& forall|i: int| 0 <= i < s.len() ==> is_decimal_digit(#[trigger] s[i])
    &&& s.len() > 1 ==> s[0] != '0'
    &&& decimal_value(s) <= 255
}

/// `s` is an IPv4 address literal: four octets with a dot between each two.
pub open spec fn is_ipv4_literal(s: Seq<char>) -> bool {
    &&& occurrences(s, '.') == 3
    &&& forall|i: int, j: int| #[trigger]
        is_field(s, '.', i, j) ==> is_octet(s.subrange(i, j))
}

/// Whether an ASCII text writes an octet.
pub(crate) fn accepts_octet(text: &str) -> (res: bool)
    requires
        text.is_ascii(),
    ensures
        res == is_octet(text@),
{
    let n: usize = ascii_len(text);
    if n == 0 || n > 3 {
        return false;
    }
    let mut value: u32 = 0;
    let mut at: usize = 0;
    while at < n
        invariant
            text.is_ascii(),
            n == text@.len(),
            at <= n <= 3,
            forall|i: int| 0 <= i < at ==> is_decimal_digit(#[trigger] text@[i]),
            value == decimal_value(text@.subrange(0, at as int)),
            value <= 999,
            at <= 2 ==> value <= 99,
            at <= 1 ==> value <= 9,
            at == 0 ==> value == 0,
        decreases n - at,
    {
        let c: char = char_at(text, at);
        if c < '0' || c > '9' {
            return false;
        }
        proof {
            assert(text@.subrange(0, at + 1).drop_last() =~= text@.subrange(0, at as int));
        }
        value = 10 * value + (c as u32 - '0' as u32);
        at += 1;
    }
    proof {
        assert(text@.subrange(0, n as int) =~= text@);
    }
    if n > 1 && char_at(text, 0) == '0' {
        return false;
    }
    value <= 255
}

/// Whether an ASCII text is an IPv4 address literal.
pub(crate) fn accepts_ipv4(text: &str) -> (res: bool)
    requires
        text.is_ascii(),
    ensures
        res == is_ipv4_literal(text@),
{
    let n: usize = ascii_len(text);
    let mut start: usize = 0;
    let mut dots: usize = 0;
    loop
        invariant
            text.is_ascii(),
            n == text@.len(),
            start <= n,
            start == 0 || text@[start - 1] == '.',
            dots == occurrences(text@.subrange(0, start as int), '.'),
            dots <= 3,
            forall|i: int, j: int| #[trigger]
                is_field(text@, '.', i, j) && j < start ==> is_octet(text@.subrange(i, j)),
        decreases n - start,
    {
        let end: usize = find(text, '.', start);
        assert(is_field(text@, '.', start as int, end as int));
        if !accepts_octet(text.substring_ascii(start, end)) {
            return false;
        }
        proof {
            assert forall|i: int, j: int| #[trigger]
                is_field(text@, '.', i, j) && j <= end implies is_octet(text@.subrange(i, j)) by {
                lemma_fields_apart(text@, '.', start as int, end as int, i, j);
            }
        }
        if end == n {
            proof {
                lemma_occurrences_cut(text@, '.', start as int);
                lemma_occurrences_absent(text@.subrange(start as int, n as int), '.');
            }
            return dots == 3;
        }
        proof {
            lemma_occurrences_past_field(text@, '.', start as int, end as int);
            lemma_occurrences_cut(text@, '.', end + 1);
        }
        if dots == 3 {
            return false;
        }
        dots += 1;
        start = end + 1;
    }
}

} // verus!
