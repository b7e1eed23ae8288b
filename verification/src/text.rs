//! The order of strings, and their parts.

use vstd::prelude::*;

verus! {

/// `a` comes before `b` in a dictionary, or is `b`: by the first character in which they
/// differ, and a string before the longer ones that begin with it.
pub open spec fn lex_le(a: Seq<char>, b: Seq<char>) -> bool
    decreases a.len(),
{
    if a.len() == 0 {
        true
    } else if b.len() == 0 {
        false
    } else if a[0] != b[0] {
        (a[0] as int) < (b[0] as int)
    } else {
        lex_le(a.skip(1), b.skip(1))
    }
}

/// Calls `str::le`. Strings are ordered by their bytes, which puts them in the order of their
/// characters' code points.
#[verifier::external_body]
pub(crate) fn str_le(a: &str, b: &str) -> (r: bool)
    ensures
        r == lex_le(a@, b@),
{
    a <= b
}

/// `part` stands in `s` from `i` on.
pub open spec fn stands_at(s: Seq<char>, part: Seq<char>, i: int) -> bool {
    0 <= i <= s.len() - part.len() && s.subrange(i, i + part.len()) == part
}

/// `part` stands somewhere in `s`.
pub open spec fn holds(s: Seq<char>, part: Seq<char>) -> bool {
    exists|i: int| #[trigger] stands_at(s, part, i)
}

/// Calls `str::contains` with a text as the pattern: whether the text is a part of the other.
#[verifier::external_body]
pub(crate) fn str_contains(s: &str, part: &str) -> (r: bool)
    ensures
        r == holds(s@, part@),
{
    s.contains(part)
}

/// Calls `str::starts_with` with a text as the pattern: whether the other begins with it.
#[verifier::external_body]
pub(crate) fn str_starts_with(s: &str, part: &str) -> (r: bool)
    ensures
        r == stands_at(s@, part@, 0),
{
    s.starts_with(part)
}

/// The order of strings is total.
pub proof fn law_lex_total(a: Seq<char>, b: Seq<char>)
    ensures
        lex_le(a, b) || lex_le(b, a),
    decreases a.len(),
{
    if a.len() > 0 && b.len() > 0 && a[0] == b[0] {
        law_lex_total(a.skip(1), b.skip(1));
    }
}

/// The order of strings is transitive.
pub proof fn law_lex_transitive(a: Seq<char>, b: Seq<char>, c: Seq<char>)
    requires
        lex_le(a, b),
        lex_le(b, c),
    ensures
        lex_le(a, c),
    decreases a.len(),
{
    if a.len() > 0 && b.len() > 0 && c.len() > 0 && a[0] == b[0] && b[0] == c[0] {
        law_lex_transitive(a.skip(1), b.skip(1), c.skip(1));
    }
}

/// Two strings that come before each other are the same.
pub proof fn law_lex_antisymmetric(a: Seq<char>, b: Seq<char>)
    requires
        lex_le(a, b),
        lex_le(b, a),
    ensures
        a == b,
    decreases a.len(),
{
    if a.len() > 0 && b.len() > 0 {
        law_lex_antisymmetric(a.skip(1), b.skip(1));
        assert(a =~= seq![a[0]] + a.skip(1));
        assert(b =~= seq![b[0]] + b.skip(1));
    } else {
        assert(a =~= b);
    }
}

} // verus!
