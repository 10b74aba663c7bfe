//! What holds of every address literal.

use crate::host::{is_delimiter, may_name_host, MAX_HOST_LENGTH};
use crate::ipv4::{is_decimal_digit, is_ipv4_literal, is_octet};
use crate::ipv6::{
    ends_in_ipv4, group_count, is_compressed_at, is_group_list, is_hex_digit, is_hex_group,
    is_ipv6_literal, lemma_hex_group_not_ipv4,
};
use crate::text::{
    is_field, lemma_field_around, lemma_field_before_separator, lemma_fields_apart,
    lemma_length_by_fields, lemma_occurrences_absent, lemma_occurrences_cut,
    lemma_occurrences_past_field, lemma_stretch_before, occurrences,
};
use crate::is_ip_literal;
use crate::resolve::Resolution;
use vstd::prelude::*;

verus! {

/// `c` may stand in an address literal: a hexadecimal digit, a colon or a dot.
pub open spec fn is_literal_char(c: char) -> bool {
    is_hex_digit(c) || c == ':' || c == '.'
}

/// An IPv4 literal holds nothing but decimal digits and dots.
pub proof fn lemma_ipv4_alphabet(s: Seq<char>)
    requires
        is_ipv4_literal(s),
    ensures
        forall|i: int| 0 <= i < s.len() ==> is_decimal_digit(#[trigger] s[i]) || s[i] == '.',
{
    assert forall|i: int| 0 <= i < s.len() implies is_decimal_digit(#[trigger] s[i]) || s[i]
        == '.' by {
        if s[i] != '.' {
            let (from, to) = lemma_field_around(s, '.', i);
            assert(is_octet(s.subrange(from, to)));
            assert(s.subrange(from, to)[i - from] == s[i]);
        }
    }
}

/// A group list holds nothing but hexadecimal digits, colons and dots.
pub proof fn lemma_group_list_alphabet(s: Seq<char>, mixed: bool)
    requires
        is_group_list(s, mixed),
    ensures
        forall|i: int| 0 <= i < s.len() ==> is_literal_char(#[trigger] s[i]),
{
    assert forall|i: int| 0 <= i < s.len() implies is_literal_char(#[trigger] s[i]) by {
        if s[i] != ':' {
            let (from, to) = lemma_field_around(s, ':', i);
            let field = s.subrange(from, to);
            assert(field[i - from] == s[i]);
            if !is_hex_group(field) {
                lemma_ipv4_alphabet(field);
            }
        }
    }
}

/// A text that holds any character but a hexadecimal digit, a colon or a dot
/// is no address literal.
pub proof fn lemma_literal_alphabet(s: Seq<char>)
    requires
        is_ip_literal(s),
    ensures
        forall|i: int| 0 <= i < s.len() ==> is_literal_char(#[trigger] s[i]),
{
    if is_ipv4_literal(s) {
        lemma_ipv4_alphabet(s);
    } else if is_group_list(s, true) {
        lemma_group_list_alphabet(s, true);
    } else {
        let at = choose|at: int| is_compressed_at(s, at);
        let head = s.subrange(0, at);
        let tail = s.subrange(at + 2, s.len() as int);
        lemma_group_list_alphabet(head, false);
        lemma_group_list_alphabet(tail, true);
        assert forall|i: int| 0 <= i < s.len() implies is_literal_char(#[trigger] s[i]) by {
            if i < at {
                assert(head[i] == s[i]);
            } else if i >= at + 2 {
                assert(tail[i - at - 2] == s[i]);
            }
        }
    }
}

/// An IPv4 literal is 7 to 15 characters long.
pub proof fn lemma_ipv4_length(s: Seq<char>)
    requires
        is_ipv4_literal(s),
    ensures
        7 <= s.len() <= 15,
{
    assert forall|i: int, j: int| #[trigger] is_field(s, '.', i, j) implies 1 <= j - i <= 3 by {
        assert(is_octet(s.subrange(i, j)));
    }
    lemma_length_by_fields(s, '.', 1, 3);
}

/// A group list takes at most five characters for each group that it writes
/// out, and five more if it ends in an IPv4 literal.
pub proof fn lemma_group_list_length(s: Seq<char>, mixed: bool)
    requires
        is_group_list(s, mixed),
    ensures
        group_count(s) <= s.len() <= 5 * group_count(s) + 5,
        !ends_in_ipv4(s) ==> s.len() <= 5 * group_count(s),
        ends_in_ipv4(s) ==> mixed,
{
    if s.len() == 0 {
        assert forall|i: int| #[trigger] is_field(s, ':', i, 0) implies !is_ipv4_literal(
            s.subrange(i, 0),
        ) by {
            assert(s.subrange(i, 0).len() == 0);
        }
    } else {
        let n = s.len() as int;
        let from = lemma_stretch_before(s, ':', n);
        let last = s.subrange(from, n);
        assert(is_field(s, ':', from, n));
        assert forall|i: int| #[trigger] is_field(s, ':', i, n) implies i == from by {
            lemma_fields_apart(s, ':', from, n, i, n);
        }
        if is_hex_group(last) {
            lemma_hex_group_not_ipv4(last);
            assert(!ends_in_ipv4(s));
            assert forall|i: int, j: int| #[trigger] is_field(s, ':', i, j) implies 1 <= j - i
                <= 4 by {
                assert(is_hex_group(s.subrange(i, j)));
            }
            lemma_length_by_fields(s, ':', 1, 4);
            assert(group_count(s) == occurrences(s, ':') + 1);
            assert(s.len() <= 5 * occurrences(s, ':') + 4);
            assert(2 * occurrences(s, ':') + 1 <= s.len());
        } else {
            assert(is_ipv4_literal(last));
            assert(ends_in_ipv4(s));
            assert(group_count(s) == occurrences(s, ':') + 2);
            lemma_ipv4_length(last);
            lemma_occurrences_cut(s, ':', from);
            lemma_occurrences_absent(last, ':');
            if from == 0 {
                assert(s.subrange(0, 0).len() == 0);
                assert(occurrences(s, ':') == 0);
            } else {
                let before = s.subrange(0, from - 1);
                assert(s.subrange(0, from).drop_last() =~= before);
                assert forall|i: int, j: int| #[trigger]
                    is_field(before, ':', i, j) implies 1 <= j - i <= 4 by {
                    lemma_field_before_separator(s, ':', from - 1, i, j);
                    assert(is_hex_group(s.subrange(i, j)));
                }
                lemma_length_by_fields(before, ':', 1, 4);
                assert(occurrences(s, ':') == occurrences(before, ':') + 1);
                assert(s.len() == before.len() + 1 + last.len());
            }
        }
    }
}

/// An address literal is at most 45 characters long, and at least 2: a text
/// of any other length is no address literal.
pub proof fn lemma_literal_length(s: Seq<char>)
    requires
        is_ip_literal(s),
    ensures
        2 <= s.len() <= 45,
{
    if is_ipv4_literal(s) {
        lemma_ipv4_length(s);
    } else if is_group_list(s, true) && group_count(s) == 8 {
        lemma_group_list_length(s, true);
    } else {
        let at = choose|at: int| is_compressed_at(s, at);
        lemma_group_list_length(s.subrange(0, at), false);
        lemma_group_list_length(s.subrange(at + 2, s.len() as int), true);
    }
}

/// An IPv4 literal holds three dots and no colon. An IPv6 literal holds two
/// to eight colons. So no text is a literal of both versions.
pub proof fn lemma_separator_counts(s: Seq<char>)
    requires
        is_ip_literal(s),
    ensures
        is_ipv4_literal(s) ==> occurrences(s, '.') == 3 && occurrences(s, ':') == 0,
        is_ipv6_literal(s) ==> 2 <= occurrences(s, ':') <= 8,
        !(is_ipv4_literal(s) && is_ipv6_literal(s)),
{
    if is_ipv4_literal(s) {
        lemma_ipv4_alphabet(s);
        lemma_occurrences_absent(s, ':');
    }
    if is_ipv6_literal(s) {
        if !(is_group_list(s, true) && group_count(s) == 8) {
            let at = choose|at: int| is_compressed_at(s, at);
            lemma_occurrences_cut(s, ':', at + 2);
            lemma_occurrences_past_field(s, ':', at + 1, at + 1);
            lemma_occurrences_past_field(s, ':', at, at);
        }
    }
}

/// A text names no host if it is empty, if it is longer than a host's name
/// can be, or if it holds a delimiter: whatever the resolver answers, such a
/// text is no domain.
pub proof fn lemma_refused_hosts(s: Seq<char>, resolution: Resolution)
    requires
        s.len() == 0 || s.len() > MAX_HOST_LENGTH || exists|i: int|
            0 <= i < s.len() && is_delimiter(#[trigger] s[i]),
    ensures
        !(may_name_host(s) && resolution.names_host()),
{
}

/// Every address literal may name a host: the validator refuses none of them
/// before the resolver is asked.
pub proof fn lemma_literal_may_name_host(s: Seq<char>)
    requires
        is_ip_literal(s),
    ensures
        may_name_host(s),
{
    lemma_literal_alphabet(s);
    lemma_literal_length(s);
}

/// An address literal is a domain whenever the resolver answers it with an
/// address.
pub proof fn lemma_literal_is_domain(s: Seq<char>, resolution: Resolution)
    requires
        is_ip_literal(s),
        resolution.names_host(),
    ensures
        may_name_host(s) && resolution.names_host(),
{
    lemma_literal_may_name_host(s);
}

/// The verdict on a text goes by its characters alone: two texts that hold
/// the same characters are both address literals, or neither is.
pub proof fn lemma_verdict_by_characters(a: &str, b: &str)
    requires
        a@ == b@,
    ensures
        is_ip_literal(a@) == is_ip_literal(b@),
{
}

} // verus!
