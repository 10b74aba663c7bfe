//! IPv6 address literals in colon-hexadecimal notation.

use crate::ipv4::{accepts_ipv4, is_ipv4_literal};
use crate::text::{
    ascii_len, char_at, find, is_field, lemma_fields_apart, lemma_occurrences_absent,
    lemma_occurrences_cut, lemma_occurrences_past_field, occurrences,
};
use vstd::prelude::*;
use vstd::string::*;

verus! {

/// `c` is a hexadecimal digit, in either case.
pub open spec fn is_hex_digit(c: char) -> bool {
    '0' <= c <= '9' || 'a' <= c <= 'f' || 'A' <= c <= 'F'
}

/// `s` writes one 16-bit group of an address: one to four hexadecimal digits.
pub open spec fn is_hex_group(s: Seq<char>) -> bool {
    &&& 1 <= s.len() <= 4
    &&& forall|i: int| 0 <= i < s.len() ==> is_hex_digit(#[trigger] s[i])
}

/// `s` is a list of groups with a colon between each two, or is empty. If
/// `mixed`, an IPv4 literal may stand in place of the last group.
pub open spec fn is_group_list(s: Seq<char>, mixed: bool) -> bool {
    s.len() > 0 ==> forall|i: int, j: int| #[trigger]
        is_field(s, ':', i, j) ==> {
            ||| is_hex_group(s.subrange(i, j))
            ||| mixed && j == s.len() && is_ipv4_literal(s.subrange(i, j))
        }
}

/// The last field of `s` between colons is an IPv4 literal.
pub open spec fn ends_in_ipv4(s: Seq<char>) -> bool {
    exists|i: int| #[trigger]
        is_field(s, ':', i, s.len() as int) && is_ipv4_literal(s.subrange(i, s.len() as int))
}

/// How many 16-bit groups a group list writes out: one for each hexadecimal
/// group, two for an IPv4 literal at its end.
pub open spec fn group_count(s: Seq<char>) -> nat {
    if s.len() == 0 {
        0
    } else if ends_in_ipv4(s) {
        occurrences(s, ':') + 2
    } else {
        occurrences(s, ':') + 1
    }
}

/// `s` holds a double colon at `at`, with a group list on either side, and
/// the double colon stands for at least one group of the eight.
pub open spec fn is_compressed_at(s: Seq<char>, at: int) -> bool {
    &&& 0 <= at && at + 2 <= s.len()
    &&& s[at] == ':' && s[at + 1] == ':'
    &&& is_group_list(s.subrange(0, at), false)
    &&& is_group_list(s.subrange(at + 2, s.len() as int), true)
    &&& group_count(s.subrange(0, at)) + group_count(s.subrange(at + 2, s.len() as int)) <= 7
}

/// `s` is an IPv6 address literal: a group list that writes out all eight
/// groups, or one with a double colon in place of the groups it leaves out.
pub open spec fn is_ipv6_literal(s: Seq<char>) -> bool {
    ||| is_group_list(s, true) && group_count(s) == 8
    ||| exists|at: int| is_compressed_at(s, at)
}

/// A hexadecimal group holds no dot, so it is no IPv4 literal.
pub proof fn lemma_hex_group_not_ipv4(s: Seq<char>)
    requires
        is_hex_group(s),
    ensures
        !is_ipv4_literal(s),
{
    assert forall|i: int| 0 <= i < s.len() implies s[i] != '.' by {
        assert(is_hex_digit(s[i]));
    }
    lemma_occurrences_absent(s, '.');
}

/// Whether an ASCII text writes a hexadecimal group.
pub(crate) fn accepts_hex_group(text: &str) -> (res: bool)
    requires
        text.is_ascii(),
    ensures
        res == is_hex_group(text@),
{
    let n: usize = ascii_len(text);
    if n == 0 || n > 4 {
        return false;
    }
    let mut at: usize = 0;
    while at < n
        invariant
            text.is_ascii(),
            n == text@.len(),
            at <= n,
            forall|i: int| 0 <= i < at ==> is_hex_digit(#[trigger] text@[i]),
        decreases n - at,
    {
        let c: char = char_at(text, at);
        let hex: bool = ('0' <= c && c <= '9') || ('a' <= c && c <= 'f') || ('A' <= c && c <= 'F');
        if !hex {
            return false;
        }
        at += 1;
    }
    true
}

/// The number of groups that an ASCII text writes out as a group list, for a
/// list of at most eight.
pub(crate) fn count_groups(text: &str, mixed: bool) -> (res: Option<usize>)
    requires
        text.is_ascii(),
    ensures
        res == if is_group_list(text@, mixed) && group_count(text@) <= 8 {
            Some(group_count(text@) as usize)
        } else {
            None
        },
{
    let n: usize = ascii_len(text);
    if n == 0 {
        return Some(0);
    }
    let mut start: usize = 0;
    let mut colons: usize = 0;
    loop
        invariant
            text.is_ascii(),
            0 < n == text@.len(),
            start <= n,
            start == 0 || text@[start - 1] == ':',
            colons == occurrences(text@.subrange(0, start as int), ':'),
            colons <= 7,
            forall|i: int, j: int| #[trigger]
                is_field(text@, ':', i, j) && j < start ==> is_hex_group(text@.subrange(i, j)),
        decreases n - start,
    {
        let end: usize = find(text, ':', start);
        let field: &str = text.substring_ascii(start, end);
        assert(is_field(text@, ':', start as int, end as int));
        let hex: bool = accepts_hex_group(field);
        if end == n {
            proof {
                lemma_occurrences_cut(text@, ':', start as int);
                lemma_occurrences_absent(text@.subrange(start as int, n as int), ':');
                assert forall|i: int| #[trigger] is_field(text@, ':', i, n as int) implies i
                    == start by {
                    lemma_fields_apart(text@, ':', start as int, end as int, i, n as int);
                }
            }
            let ipv4: bool = !hex && mixed && accepts_ipv4(field);
            proof {
                if hex {
                    lemma_hex_group_not_ipv4(field@);
                }
                if hex || ipv4 {
                    assert forall|i: int, j: int| #[trigger] is_field(text@, ':', i, j) implies {
                        ||| is_hex_group(text@.subrange(i, j))
                        ||| mixed && j == n && is_ipv4_literal(text@.subrange(i, j))
                    } by {
                        lemma_fields_apart(text@, ':', start as int, end as int, i, j);
                    }
                }
                assert(ends_in_ipv4(text@) == (is_ipv4_literal(field@)));
            }
            if hex {
                return Some(colons + 1);
            }
            if ipv4 && colons < 7 {
                return Some(colons + 2);
            }
            return None;
        }
        if !hex {
            return None;
        }
        proof {
            lemma_occurrences_past_field(text@, ':', start as int, end as int);
            lemma_occurrences_cut(text@, ':', end + 1);
            assert forall|i: int, j: int| #[trigger]
                is_field(text@, ':', i, j) && j <= end implies is_hex_group(
                text@.subrange(i, j),
            ) by {
                lemma_fields_apart(text@, ':', start as int, end as int, i, j);
            }
        }
        if colons == 7 {
            return None;
        }
        colons += 1;
        start = end + 1;
    }
}

/// The first position of an ASCII text where two colons stand side by side.
pub(crate) fn find_double_colon(text: &str) -> (res: Option<usize>)
    requires
        text.is_ascii(),
    ensures
        match res {
            Some(at) => {
                &&& at + 1 < text@.len()
                &&& text@[at as int] == ':' && text@[at + 1] == ':'
                &&& forall|i: int|
                    0 <= i < at ==> !(text@[i] == ':' && #[trigger] text@[i + 1] == ':')
            },
            None => forall|i: int|
                0 <= i && i + 1 < text@.len() ==> !(text@[i] == ':' && #[trigger] text@[i + 1]
                    == ':'),
        },
{
    let n: usize = ascii_len(text);
    let mut at: usize = 0;
    while at < n
        invariant
            text.is_ascii(),
            n == text@.len(),
            at <= n,
            forall|i: int|
                0 <= i < at && i + 1 < n ==> !(text@[i] == ':' && #[trigger] text@[i + 1] == ':'),
        decreases n - at,
    {
        if at + 1 < n && char_at(text, at) == ':' && char_at(text, at + 1) == ':' {
            return Some(at);
        }
        at += 1;
    }
    None
}

/// Whether an ASCII text is an IPv6 address literal.
pub(crate) fn accepts_ipv6(text: &str) -> (res: bool)
    requires
        text.is_ascii(),
    ensures
        res == is_ipv6_literal(text@),
{
    let n: usize = ascii_len(text);
    match find_double_colon(text) {
        None => {
            let groups: Option<usize> = count_groups(text, true);
            proof {
                assert forall|k: int| !is_compressed_at(text@, k) by {
                    if 0 <= k && k + 2 <= text@.len() {
                        assert(!(text@[k] == ':' && text@[k + 1] == ':'));
                    }
                }
            }
            match groups {
                Some(g) => g == 8,
                None => false,
            }
        },
        Some(at) => {
            let head: Option<usize> = count_groups(text.substring_ascii(0, at), false);
            let tail: Option<usize> = count_groups(text.substring_ascii(at + 2, n), true);
            proof {
                let s = text@;
                assert(is_field(s, ':', at + 1, at + 1));
                assert(s.subrange(at + 1, at + 1).len() == 0);
                lemma_occurrences_absent(s.subrange(at + 1, at + 1), '.');
                assert(!is_group_list(s, true));
                assert forall|k: int| is_compressed_at(s, k) implies k == at by {
                    if k > at {
                        let before = s.subrange(0, k);
                        if at + 1 < k {
                            assert(before[at as int] == ':' && before[at + 1] == ':');
                            assert(is_field(before, ':', at + 1, at + 1));
                            assert(before.subrange(at + 1, at + 1).len() == 0);
                        } else {
                            assert(before[k - 1] == ':');
                            assert(is_field(before, ':', k, k));
                            assert(before.subrange(k, k).len() == 0);
                        }
                    }
                    if k < at {
                        assert(s[k + 1] == ':');
                    }
                }
            }
            assert(is_ipv6_literal(text@) == is_compressed_at(text@, at as int));
            match (head, tail) {
                (Some(h), Some(t)) => h + t <= 7,
                _ => false,
            }
        },
    }
}

} // verus!
