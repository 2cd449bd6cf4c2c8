//! What a filter pattern matches, stated over the characters of the pattern
//! and the name.

use vstd::prelude::*;

use crate::text::lower;
use crate::tree_filter::{char_matches, glob_from, glob_matches, lemma_star};

verus! {

/// `c` is one of the pattern's wildcards: `*`, `%` or `?`.
pub open spec fn is_wildcard(c: char) -> bool {
    c == '*' || c == '%' || c == '?'
}

proof fn lemma_literal_from(p: Seq<char>, s: Seq<char>, i: int, j: int)
    requires
        0 <= i <= p.len(),
        0 <= j <= s.len(),
        forall|k: int| i <= k < p.len() ==> !is_wildcard(#[trigger] p[k]),
    ensures
        glob_from(p, s, i, j) <==> (p.len() - i == s.len() - j && forall|k: int|
            0 <= k < p.len() - i ==> lower(#[trigger] p[i + k]) == lower(s[j + k])),
    decreases p.len() - i,
{
    if i < p.len() {
        assert(!is_wildcard(p[i]));
        if j < s.len() {
            lemma_literal_from(p, s, i + 1, j + 1);
            if glob_from(p, s, i, j) {
                assert forall|k: int| 0 <= k < p.len() - i implies lower(#[trigger] p[i + k]) == lower(s[j + k]) by {
                    if k > 0 {
                        assert(p[(i + 1) + (k - 1)] == p[i + k]);
                        assert(s[(j + 1) + (k - 1)] == s[j + k]);
                    }
                }
            }
            if p.len() - i == s.len() - j && forall|k: int|
                0 <= k < p.len() - i ==> lower(#[trigger] p[i + k]) == lower(s[j + k]) {
                assert(lower(p[i + 0]) == lower(s[j + 0]));
                assert forall|k: int| 0 <= k < p.len() - (i + 1) implies lower(#[trigger] p[(i + 1) + k]) == lower(
                    s[(j + 1) + k],
                ) by {
                    assert(lower(p[i + (k + 1)]) == lower(s[j + (k + 1)]));
                }
            }
        }
    }
}

/// A pattern without wildcards matches exactly the names of its length
/// whose characters equal its own once ASCII letters are lowercased: a
/// literal digit or letter matches only itself, up to ASCII case.
pub proof fn lemma_literal_pattern(p: Seq<char>, s: Seq<char>)
    requires
        forall|k: int| 0 <= k < p.len() ==> !is_wildcard(#[trigger] p[k]),
    ensures
        glob_matches(p, s) <==> (p.len() == s.len() && forall|k: int|
            0 <= k < p.len() ==> lower(#[trigger] p[k]) == lower(s[k])),
{
    lemma_literal_from(p, s, 0, 0);
    if glob_matches(p, s) {
        assert forall|k: int| 0 <= k < p.len() implies lower(#[trigger] p[k]) == lower(s[k]) by {
            assert(lower(p[0 + k]) == lower(s[0 + k]));
        }
    }
    if p.len() == s.len() && forall|k: int| 0 <= k < p.len() ==> lower(#[trigger] p[k]) == lower(s[k]) {
        assert forall|k: int| 0 <= k < p.len() - 0 implies lower(#[trigger] p[0 + k]) == lower(s[0 + k]) by {
            assert(lower(p[k]) == lower(s[k]));
        }
    }
}

/// A pattern character other than a wildcard matches a name character
/// exactly when the two are equal once ASCII letters are lowercased, so a
/// one-character pattern such as `1` matches `1` and nothing else.
pub proof fn lemma_literal_char(pc: char, sc: char)
    requires
        !is_wildcard(pc),
    ensures
        char_matches(pc, sc) <==> lower(pc) == lower(sc),
        glob_matches(seq![pc], seq![sc]) <==> lower(pc) == lower(sc),
{
    lemma_literal_pattern(seq![pc], seq![sc]);
    assert(seq![pc][0] == pc && seq![sc][0] == sc);
}

/// `*` followed by a pattern without wildcards matches exactly the names
/// that end with that text, up to ASCII case (`*1.SC5` matches `IMG1.SC5`,
/// not `IMG2.SC5`).
pub proof fn lemma_star_then_literal(lit: Seq<char>, s: Seq<char>)
    requires
        forall|k: int| 0 <= k < lit.len() ==> !is_wildcard(#[trigger] lit[k]),
    ensures
        glob_matches(seq!['*'] + lit, s) <==> (lit.len() <= s.len() && forall|k: int|
            0 <= k < lit.len() ==> lower(#[trigger] lit[k]) == lower(s[s.len() - lit.len() + k])),
{
    let p = seq!['*'] + lit;
    assert(p[0] == '*');
    assert forall|k: int| 1 <= k < p.len() implies !is_wildcard(#[trigger] p[k]) by {
        assert(p[k] == lit[k - 1]);
    }
    lemma_star(p, s, 0, 0);
    if glob_matches(p, s) {
        let t = choose|t: int| 0 <= t <= s.len() && #[trigger] glob_from(p, s, 1, t);
        lemma_literal_from(p, s, 1, t);
        assert forall|k: int| 0 <= k < lit.len() implies lower(#[trigger] lit[k]) == lower(
            s[s.len() - lit.len() + k],
        ) by {
            assert(lower(p[1 + k]) == lower(s[t + k]));
            assert(p[1 + k] == lit[k]);
        }
    }
    if lit.len() <= s.len() && forall|k: int|
        0 <= k < lit.len() ==> lower(#[trigger] lit[k]) == lower(s[s.len() - lit.len() + k]) {
        let t = s.len() - lit.len();
        lemma_literal_from(p, s, 1, t);
        assert forall|k: int| 0 <= k < p.len() - 1 implies lower(#[trigger] p[1 + k]) == lower(s[t + k]) by {
            assert(p[1 + k] == lit[k]);
        }
        assert(glob_from(p, s, 1, t));
    }
}

/// `?` and `%` each match exactly the one-character names.
pub proof fn lemma_single_wildcard(s: Seq<char>)
    ensures
        glob_matches(seq!['?'], s) <==> s.len() == 1,
        glob_matches(seq!['%'], s) <==> s.len() == 1,
{
    if s.len() >= 1 {
        assert(glob_from(seq!['?'], s, 1, 1) <==> s.len() == 1);
        assert(glob_from(seq!['%'], s, 1, 1) <==> s.len() == 1);
    }
}

} // verus!
