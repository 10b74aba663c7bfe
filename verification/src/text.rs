//! Texts cut into fields by a separator character.

use vstd::prelude::*;
use vstd::string::*;

verus! {

/// How often `c` stands in `s`.
pub open spec fn occurrences(s: Seq<char>, c: char) -> nat
    decreases s.len(),
{
    if s.len() == 0 {
        0
    } else {
        occurrences(s.drop_last(), c) + if s.last() == c {
            1nat
        } else {
            0nat
        }
    }
}

/// `[from, to)` is a field of `s`: a stretch without `sep` that reaches, on
/// either side, a `sep` or the end of `s`. A field may be empty.
pub open spec fn is_field(s: Seq<char>, sep: char, from: int, to: int) -> bool {
    &&& 0 <= from <= to <= s.len()
    &&& from == 0 || s[from - 1] == sep
    &&& to == s.len() || s[to] == sep
    &&& forall|i: int| from <= i < to ==> s[i] != sep
}

/// A text without `c` holds it zero times.
pub proof fn lemma_occurrences_absent(s: Seq<char>, c: char)
    requires
        forall|i: int| 0 <= i < s.len() ==> s[i] != c,
    ensures
        occurrences(s, c) == 0,
    decreases s.len(),
{
    if s.len() > 0 {
        lemma_occurrences_absent(s.drop_last(), c);
    }
}

/// Occurrences add up over a concatenation.
pub proof fn lemma_occurrences_concat(a: Seq<char>, b: Seq<char>, c: char)
    ensures
        occurrences(a + b, c) == occurrences(a, c) + occurrences(b, c),
    decreases b.len(),
{
    if b.len() == 0 {
        assert(a + b =~= a);
    } else {
        assert((a + b).drop_last() =~= a + b.drop_last());
        lemma_occurrences_concat(a, b.drop_last(), c);
    }
}

/// Cutting `s` at `at` splits its occurrences of `c` between the two parts.
pub proof fn lemma_occurrences_cut(s: Seq<char>, c: char, at: int)
    requires
        0 <= at <= s.len(),
    ensures
        occurrences(s, c) == occurrences(s.subrange(0, at), c) + occurrences(
            s.subrange(at, s.len() as int),
            c,
        ),
{
    assert(s =~= s.subrange(0, at) + s.subrange(at, s.len() as int));
    lemma_occurrences_concat(s.subrange(0, at), s.subrange(at, s.len() as int), c);
}

/// A prefix that ends just behind a separator holds one separator more than
/// the prefix that ends where the separator's field began.
pub proof fn lemma_occurrences_past_field(s: Seq<char>, sep: char, from: int, to: int)
    requires
        0 <= from <= to < s.len(),
        forall|i: int| from <= i < to ==> s[i] != sep,
        s[to] == sep,
    ensures
        occurrences(s.subrange(0, to + 1), sep) == occurrences(s.subrange(0, from), sep) + 1,
{
    let upto = s.subrange(0, to + 1);
    lemma_occurrences_cut(upto, sep, from);
    assert(upto.subrange(0, from) =~= s.subrange(0, from));
    let rest = upto.subrange(from, to + 1);
    assert(rest.drop_last() =~= s.subrange(from, to));
    lemma_occurrences_absent(s.subrange(from, to), sep);
}

/// Two fields of one text are the same field, or a separator lies between
/// them.
pub proof fn lemma_fields_apart(s: Seq<char>, sep: char, a: int, b: int, i: int, j: int)
    requires
        is_field(s, sep, a, b),
        is_field(s, sep, i, j),
    ensures
        (i == a && j == b) || j < a || b < i,
{
    if i < a && a <= j {
        assert(s[a - 1] == sep);
    }
    if a < i && i <= b {
        assert(s[i - 1] == sep);
    }
    if i == a && j < b {
        assert(s[j] == sep);
    }
    if i == a && b < j {
        assert(s[b] == sep);
    }
}

/// Where the separator-free stretch that ends before `at` begins.
pub proof fn lemma_stretch_before(s: Seq<char>, sep: char, at: int) -> (from: int)
    requires
        0 <= at <= s.len(),
    ensures
        0 <= from <= at,
        from == 0 || s[from - 1] == sep,
        forall|i: int| from <= i < at ==> s[i] != sep,
    decreases at,
{
    if at == 0 || s[at - 1] == sep {
        at
    } else {
        lemma_stretch_before(s, sep, at - 1)
    }
}

/// Where the separator-free stretch that begins at `at` ends.
pub proof fn lemma_stretch_after(s: Seq<char>, sep: char, at: int) -> (to: int)
    requires
        0 <= at <= s.len(),
    ensures
        at <= to <= s.len(),
        to == s.len() || s[to] == sep,
        forall|i: int| at <= i < to ==> s[i] != sep,
    decreases s.len() - at,
{
    if at == s.len() || s[at] == sep {
        at
    } else {
        lemma_stretch_after(s, sep, at + 1)
    }
}

/// Every position of a text lies in or at the end of one of its fields.
pub proof fn lemma_field_around(s: Seq<char>, sep: char, at: int) -> (field: (int, int))
    requires
        0 <= at <= s.len(),
        at < s.len() ==> s[at] != sep,
    ensures
        is_field(s, sep, field.0, field.1),
        field.0 <= at <= field.1,
        at < s.len() ==> at < field.1,
{
    let from = lemma_stretch_before(s, sep, at);
    let to = lemma_stretch_after(s, sep, at);
    (from, to)
}

/// A field of the part of a text before one of its separators is a field of
/// the text.
pub proof fn lemma_field_before_separator(s: Seq<char>, sep: char, at: int, i: int, j: int)
    requires
        0 <= at < s.len(),
        s[at] == sep,
        is_field(s.subrange(0, at), sep, i, j),
    ensures
        is_field(s, sep, i, j),
{
    let before = s.subrange(0, at);
    assert forall|k: int| i <= k < j implies s[k] != sep by {
        assert(before[k] == s[k]);
    }
}

/// A text whose fields all hold `low` to `high` characters is as long as its
/// fields and the separators between them allow.
pub proof fn lemma_length_by_fields(s: Seq<char>, sep: char, low: nat, high: nat)
    requires
        forall|i: int, j: int| #[trigger] is_field(s, sep, i, j) ==> low <= j - i <= high,
    ensures
        (low + 1) * occurrences(s, sep) + low <= s.len() <= (high + 1) * occurrences(s, sep)
            + high,
    decreases s.len(),
{
    let n = s.len() as int;
    let from = lemma_stretch_before(s, sep, n);
    assert(is_field(s, sep, from, n));
    lemma_occurrences_cut(s, sep, from);
    lemma_occurrences_absent(s.subrange(from, n), sep);
    if from == 0 {
        assert((low + 1) * 0 == 0 && (high + 1) * 0 == 0);
    } else {
        let before = s.subrange(0, from - 1);
        assert(s.subrange(0, from).drop_last() =~= before);
        assert forall|i: int, j: int| #[trigger] is_field(before, sep, i, j) implies low <= j - i
            <= high by {
            lemma_field_before_separator(s, sep, from - 1, i, j);
        }
        lemma_length_by_fields(before, sep, low, high);
        let k = occurrences(before, sep);
        assert((low + 1) * (k + 1) == (low + 1) * k + low + 1) by (nonlinear_arith);
        assert((high + 1) * (k + 1) == (high + 1) * k + high + 1) by (nonlinear_arith);
    }
}

/// The character at position `at` of an ASCII text.
pub(crate) fn char_at(text: &str, at: usize) -> (c: char)
    requires
        text.is_ascii(),
        at < text@.len(),
    ensures
        c == text@[at as int],
{
    text.get_ascii(at) as char
}

/// The length of an ASCII text in characters.
pub(crate) fn ascii_len(text: &str) -> (n: usize)
    requires
        text.is_ascii(),
    ensures
        n == text@.len(),
{
    broadcast use is_ascii_spec_bytes;

    text.as_bytes().len()
}

/// The first position at or after `from` where `sep` stands in `text`, or the
/// length of `text` if it stands nowhere there.
pub(crate) fn find(text: &str, sep: char, from: usize) -> (at: usize)
    requires
        text.is_ascii(),
        from <= text@.len(),
    ensures
        from <= at <= text@.len(),
        forall|i: int| from <= i < at ==> text@[i] != sep,
        at < text@.len() ==> text@[at as int] == sep,
{
    let n: usize = ascii_len(text);
    let mut at: usize = from;
    while at < n && char_at(text, at) != sep
        invariant
            text.is_ascii(),
            n == text@.len(),
            from <= at <= n,
            forall|i: int| from <= i < at ==> text@[i] != sep,
        decreases n - at,
    {
        at += 1;
    }
    at
}

} // verus!
