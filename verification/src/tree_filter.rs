//! Glob filtering for the file tree.
//!
//! A small anchored, ASCII-case-insensitive filename matcher for the
//! explorer's filter box, plus the keep-set of tree paths to show for a
//! pattern.
use vstd::prelude::*;

use crate::entry::{walk, walk_list, DirEntry};
use crate::text::{
    append_chars, chars_of, eq_ignore_ascii_case, lower, lower_all, split_on, split_vec, string_from_chars,
};

verus! {

/// Whether pattern character `pc` consumes the name character `sc` on its own:
/// `%` and `?` take any one character, every other character matches itself
/// up to ASCII case.
pub open spec fn char_matches(pc: char, sc: char) -> bool {
    pc == '%' || pc == '?' || lower(pc) == lower(sc)
}

/// Whether the pattern suffix `p[i..]` matches the name suffix `s[j..]` as a
/// whole: `*` matches any run of characters (including none), `%` and `?`
/// exactly one, and every other character itself, ignoring ASCII case.
pub open spec fn glob_from(p: Seq<char>, s: Seq<char>, i: int, j: int) -> bool
    decreases p.len() - i + s.len() - j, p.len() - i,
{
    if i < 0 || j < 0 || i > p.len() || j > s.len() {
        false
    } else if i == p.len() {
        j == s.len()
    } else if p[i] == '*' {
        glob_from(p, s, i + 1, j) || (j < s.len() && glob_from(p, s, i, j + 1))
    } else if j == s.len() {
        false
    } else {
        char_matches(p[i], s[j]) && glob_from(p, s, i + 1, j + 1)
    }
}

/// Whether the whole name `s` matches the whole pattern `p`.
pub open spec fn glob_matches(p: Seq<char>, s: Seq<char>) -> bool {
    glob_from(p, s, 0, 0)
}

/// `p[a..a+len]` holds no `*` and consumes `s[c..c+len]` one character at a time.
pub open spec fn segment_matches(p: Seq<char>, s: Seq<char>, a: int, c: int, len: int) -> bool {
    &&& 0 <= a && a + len <= p.len()
    &&& 0 <= c && c + len <= s.len()
    &&& 0 <= len
    &&& forall|k: int| 0 <= k < len ==> #[trigger] p[a + k] != '*' && char_matches(p[a + k], s[c + k])
}

/// `p[a..a+len]` holds no `*`.
pub open spec fn star_free(p: Seq<char>, a: int, len: int) -> bool {
    forall|k: int| 0 <= k < len ==> #[trigger] p[a + k] != '*'
}

/// A `*` at `i` matches `s[j..]` exactly when the rest of the pattern matches
/// some suffix `s[t..]` with `t >= j`.
pub(crate) proof fn lemma_star(p: Seq<char>, s: Seq<char>, i: int, j: int)
    requires
        0 <= i < p.len(),
        0 <= j <= s.len(),
        p[i] == '*',
    ensures
        glob_from(p, s, i, j) <==> exists|t: int| j <= t <= s.len() && #[trigger] glob_from(p, s, i + 1, t),
    decreases s.len() - j,
{
    if j < s.len() {
        lemma_star(p, s, i, j + 1);
        if glob_from(p, s, i, j) {
            if glob_from(p, s, i + 1, j) {
                assert(glob_from(p, s, i + 1, j));
            } else {
                let t = choose|t: int| j + 1 <= t <= s.len() && #[trigger] glob_from(p, s, i + 1, t);
                assert(glob_from(p, s, i + 1, t));
            }
        }
        if exists|t: int| j <= t <= s.len() && #[trigger] glob_from(p, s, i + 1, t) {
            let t = choose|t: int| j <= t <= s.len() && #[trigger] glob_from(p, s, i + 1, t);
            if t > j {
                assert(glob_from(p, s, i + 1, t));
            }
        }
    } else {
        if glob_from(p, s, i, j) {
            assert(glob_from(p, s, i + 1, j));
        }
        if exists|t: int| j <= t <= s.len() && #[trigger] glob_from(p, s, i + 1, t) {
            let t = choose|t: int| j <= t <= s.len() && #[trigger] glob_from(p, s, i + 1, t);
            assert(t == j);
        }
    }
}

/// A star-free segment that consumes `s[c..c+len]` can be skipped over.
proof fn lemma_segment(p: Seq<char>, s: Seq<char>, a: int, c: int, len: int)
    requires
        segment_matches(p, s, a, c, len),
    ensures
        glob_from(p, s, a, c) == glob_from(p, s, a + len, c + len),
    decreases len,
{
    if len > 0 {
        assert(p[a + 0] != '*' && char_matches(p[a + 0], s[c + 0]));
        assert forall|k: int| 0 <= k < len - 1 implies #[trigger] p[(a + 1) + k] != '*' && char_matches(
            p[(a + 1) + k],
            s[(c + 1) + k],
        ) by {
            assert(p[a + (k + 1)] != '*' && char_matches(p[a + (k + 1)], s[c + (k + 1)]));
        }
        lemma_segment(p, s, a + 1, c + 1, len - 1);
    }
}

/// A star-free pattern segment needs at least as many name characters as it
/// is long.
proof fn lemma_segment_too_long(p: Seq<char>, s: Seq<char>, a: int, c: int, len: int)
    requires
        0 <= a,
        a + len <= p.len(),
        0 <= c <= s.len(),
        s.len() - c < len,
        star_free(p, a, len),
    ensures
        !glob_from(p, s, a, c),
    decreases len,
{
    assert(p[a + 0] != '*');
    if c < s.len() {
        assert forall|k: int| 0 <= k < len - 1 implies #[trigger] p[(a + 1) + k] != '*' by {
            assert(p[a + (k + 1)] != '*');
        }
        lemma_segment_too_long(p, s, a + 1, c + 1, len - 1);
    }
}

/// Once the name is exhausted, only a run of `*` can still match.
proof fn lemma_tail(p: Seq<char>, s: Seq<char>, i: int)
    requires
        0 <= i <= p.len(),
    ensures
        glob_from(p, s, i, s.len() as int) <==> forall|k: int| i <= k < p.len() ==> #[trigger] p[k] == '*',
    decreases p.len() - i,
{
    if i < p.len() {
        lemma_tail(p, s, i + 1);
    }
}

/// Whether `name` matches the glob `pattern`, anchored (the whole name must
/// match) and ASCII case-insensitive:
///
/// - `*` matches any run of characters, including none.
/// - `%` and `?` each match exactly one character (`%` is MSX-DOS, `?` is
///   standard glob).
/// - every other character matches itself.
///
/// Matching works on `char`s, so a single-character wildcard consumes one
/// Unicode scalar value, not one byte.
pub fn glob_match(pattern: &str, name: &str) -> (r: bool)
    ensures
        r == glob_matches(pattern@, name@),
{
    let p = chars_of(pattern);
    let s = chars_of(name);
    let ghost ps = p@;
    let ghost ss = s@;
    let mut pi: usize = 0;
    let mut si: usize = 0;
    // Last `*` seen and the name position it was allowed to start swallowing
    // from, so a failed match can backtrack and let the `*` consume one more.
    let mut star: Option<usize> = None;
    let mut star_si: usize = 0;
    while si < s.len()
        invariant
            ps == p@,
            ss == s@,
            ps == pattern@,
            ss == name@,
            pi <= p.len(),
            star_si <= si <= s.len(),
            match star {
                None => {
                    &&& pi == si
                    &&& star_si == 0
                    &&& segment_matches(ps, ss, 0, 0, pi as int)
                    &&& (glob_matches(ps, ss) == glob_from(ps, ss, pi as int, si as int))
                },
                Some(sp) => {
                    &&& sp < pi
                    &&& ps[sp as int] == '*'
                    &&& pi - (sp + 1) == si - star_si
                    &&& segment_matches(ps, ss, sp + 1, star_si as int, si - star_si)
                    &&& (glob_matches(ps, ss) <==> exists|t: int|
                        star_si <= t <= ss.len() && #[trigger] glob_from(ps, ss, sp + 1, t))
                },
            },
        decreases s.len() - star_si, p.len() - pi + s.len() - si,
    {
        if pi < p.len() && p[pi] == '*' {
            proof {
                lemma_star(ps, ss, pi as int, si as int);
                match star {
                    None => {},
                    Some(sp) => {
                        let seg = si - star_si;
                        if glob_matches(ps, ss) {
                            let t = choose|t: int|
                                star_si <= t <= ss.len() && #[trigger] glob_from(ps, ss, sp + 1, t);
                            if t + seg > ss.len() {
                                assert(star_free(ps, sp + 1, seg)) by {
                                    assert forall|k: int| 0 <= k < seg implies #[trigger] ps[(sp + 1) + k] != '*' by {
                                        assert(ps[(sp + 1) + k] != '*' && char_matches(ps[(sp + 1) + k], ss[star_si + k]));
                                    }
                                }
                                lemma_segment_too_long(ps, ss, sp + 1, t, seg);
                            } else {
                                assert(star_free(ps, sp + 1, seg)) by {
                                    assert forall|k: int| 0 <= k < seg implies #[trigger] ps[(sp + 1) + k] != '*' by {
                                        assert(ps[(sp + 1) + k] != '*' && char_matches(ps[(sp + 1) + k], ss[star_si + k]));
                                    }
                                }
                                lemma_star_free_advance(ps, ss, sp + 1, t, seg);
                                lemma_star(ps, ss, pi as int, t + seg);
                                let u = choose|u: int| t + seg <= u <= ss.len() && #[trigger] glob_from(ps, ss, pi + 1, u);
                                assert(glob_from(ps, ss, pi + 1, u));
                            }
                        }
                        if exists|u: int| si <= u <= ss.len() && #[trigger] glob_from(ps, ss, pi + 1, u) {
                            lemma_segment(ps, ss, sp + 1, star_si as int, seg);
                            assert(glob_from(ps, ss, sp + 1, star_si as int));
                        }
                    },
                }
            }
            star = Some(pi);
            star_si = si;
            pi = pi + 1;
            proof {
                let sp = (pi - 1) as int;
                assert(segment_matches(ps, ss, sp + 1, star_si as int, si - star_si));
                assert(glob_matches(ps, ss) <==> exists|t: int|
                        star_si <= t <= ss.len() && #[trigger] glob_from(ps, ss, sp + 1, t));
            }
        } else if pi < p.len() && (p[pi] == '%' || p[pi] == '?' || eq_ignore_ascii_case(p[pi], s[si])) {
            proof {
                assert(ps[pi as int] != '*');
                assert(char_matches(ps[pi as int], ss[si as int]));
                if star is None {
                    assert(glob_from(ps, ss, pi as int, si as int) == glob_from(ps, ss, pi + 1, si + 1));
                    assert forall|k: int| 0 <= k < pi + 1 implies #[trigger] ps[0 + k] != '*' && char_matches(ps[0 + k], ss[0 + k]) by {
                        if k < pi {
                            assert(ps[0 + k] != '*' && char_matches(ps[0 + k], ss[0 + k]));
                        }
                    }
                }
                if let Some(sp) = star {
                    let seg = si - star_si;
                    assert forall|k: int| 0 <= k < seg + 1 implies #[trigger] ps[(sp + 1) + k] != '*' && char_matches(
                        ps[(sp + 1) + k],
                        ss[star_si + k],
                    ) by {
                        if k < seg {
                            assert(ps[(sp + 1) + k] != '*' && char_matches(ps[(sp + 1) + k], ss[star_si + k]));
                        }
                    }
                }
            }
            pi = pi + 1;
            si = si + 1;
            proof {
                if star is None {
                    assert(segment_matches(ps, ss, 0, 0, pi as int));
                    assert(glob_matches(ps, ss) == glob_from(ps, ss, pi as int, si as int));
                }
            }
        } else {
            match star {
                Some(sp) => {
                    proof {
                        let seg = si - star_si;
                        lemma_segment(ps, ss, sp + 1, star_si as int, seg);
                        assert(!glob_from(ps, ss, pi as int, si as int));
                        if glob_matches(ps, ss) {
                            let t = choose|t: int|
                                star_si <= t <= ss.len() && #[trigger] glob_from(ps, ss, sp + 1, t);
                            assert(t != star_si);
                            assert(glob_from(ps, ss, sp + 1, t));
                        }
                        assert forall|k: int| 0 <= k < 0 implies #[trigger] ps[(sp + 1) + k] != '*' && char_matches(
                            ps[(sp + 1) + k],
                            ss[(star_si + 1) + k],
                        ) by {}
                    }
                    pi = sp + 1;
                    star_si = star_si + 1;
                    si = star_si;
                    proof {
                        assert(segment_matches(ps, ss, sp + 1, star_si as int, si - star_si));
                        assert(glob_matches(ps, ss) <==> exists|t: int|
                                star_si <= t <= ss.len() && #[trigger] glob_from(ps, ss, sp + 1, t));
                    }
                },
                None => {
                    proof {
                        if pi < p.len() {
                            assert(ps[pi as int] != '*');
                            assert(!char_matches(ps[pi as int], ss[si as int]));
                        }
                        assert(!glob_from(ps, ss, pi as int, si as int));
                        assert(!glob_matches(ps, ss));
                        assert(ps == pattern@);
                    }
                    return false;
                },
            }
        }
    }
    // Any trailing pattern must be all `*` to match the now-exhausted name.
    let mut k = pi;
    let mut all_stars = true;
    while k < p.len()
        invariant
            ps == p@,
            pi <= k <= p.len(),
            all_stars == (forall|m: int| pi <= m < k ==> #[trigger] ps[m] == '*'),
        decreases p.len() - k,
    {
        if p[k] != '*' {
            all_stars = false;
        }
        k = k + 1;
    }
    proof {
        lemma_tail(ps, ss, pi as int);
        match star {
            None => {},
            Some(sp) => {
                let seg = si - star_si;
                lemma_segment(ps, ss, sp + 1, star_si as int, seg);
                assert(star_free(ps, sp + 1, seg)) by {
                    assert forall|k: int| 0 <= k < seg implies #[trigger] ps[(sp + 1) + k] != '*' by {
                        assert(ps[(sp + 1) + k] != '*' && char_matches(ps[(sp + 1) + k], ss[star_si + k]));
                    }
                }
                if glob_matches(ps, ss) {
                    let t = choose|t: int|
                        star_si <= t <= ss.len() && #[trigger] glob_from(ps, ss, sp + 1, t);
                    if t > star_si {
                        lemma_segment_too_long(ps, ss, sp + 1, t, seg);
                    }
                } else {
                    assert(!glob_from(ps, ss, sp + 1, star_si as int));
                }
            },
        }
    }
    all_stars
}

proof fn lemma_lone_star_from(s: Seq<char>, j: int)
    requires
        0 <= j <= s.len(),
    ensures
        glob_from(seq!['*'], s, 0, j),
    decreases s.len() - j,
{
    let p = seq!['*'];
    assert(p.len() == 1 && p[0] == '*');
    assert(glob_from(p, s, 1, j) == (j == s.len()));
    if j < s.len() {
        lemma_lone_star_from(s, j + 1);
    }
}

/// A pattern of a single `*` matches every name, the empty one included.
pub proof fn lemma_star_matches_everything(s: Seq<char>)
    ensures
        glob_matches(seq!['*'], s),
{
    lemma_lone_star_from(s, 0);
}

/// ASCII lowercasing keeps each wildcard and turns no other character into one.
proof fn lemma_lower_char(c: char)
    ensures
        lower(lower(c)) == lower(c),
        (lower(c) == '*') == (c == '*'),
        (lower(c) == '%') == (c == '%'),
        (lower(c) == '?') == (c == '?'),
{
}

proof fn lemma_ignores_case_from(p: Seq<char>, s: Seq<char>, i: int, j: int)
    ensures
        glob_from(p, s, i, j) == glob_from(lower_all(p), lower_all(s), i, j),
    decreases p.len() - i + s.len() - j, p.len() - i,
{
    let lp = lower_all(p);
    let ls = lower_all(s);
    if i < 0 || j < 0 || i > p.len() || j > s.len() {
    } else if i == p.len() {
    } else {
        lemma_lower_char(p[i]);
        assert(lp[i] == lower(p[i]));
        if p[i] == '*' {
            lemma_ignores_case_from(p, s, i + 1, j);
            if j < s.len() {
                lemma_ignores_case_from(p, s, i, j + 1);
            }
        } else if j == s.len() {
        } else {
            lemma_lower_char(s[j]);
            assert(ls[j] == lower(s[j]));
            assert(char_matches(lp[i], ls[j]) == char_matches(p[i], s[j]));
            lemma_ignores_case_from(p, s, i + 1, j + 1);
        }
    }
}

/// Matching ignores ASCII case: lowercasing the pattern and the name changes
/// no outcome.
pub proof fn lemma_glob_ignores_case(p: Seq<char>, s: Seq<char>)
    ensures
        glob_matches(p, s) == glob_matches(lower_all(p), lower_all(s)),
{
    lemma_ignores_case_from(p, s, 0, 0);
}

/// `p` with every `%` written as `?`.
pub open spec fn percent_as_question(p: Seq<char>) -> Seq<char> {
    p.map_values(|c: char| if c == '%' { '?' } else { c })
}

proof fn lemma_aliases_from(p: Seq<char>, s: Seq<char>, i: int, j: int)
    ensures
        glob_from(p, s, i, j) == glob_from(percent_as_question(p), s, i, j),
    decreases p.len() - i + s.len() - j, p.len() - i,
{
    let q = percent_as_question(p);
    if i < 0 || j < 0 || i > p.len() || j > s.len() {
    } else if i == p.len() {
    } else {
        assert(q[i] == if p[i] == '%' { '?' } else { p[i] });
        if p[i] == '*' {
            lemma_aliases_from(p, s, i + 1, j);
            if j < s.len() {
                lemma_aliases_from(p, s, i, j + 1);
            }
        } else if j == s.len() {
        } else {
            lemma_aliases_from(p, s, i + 1, j + 1);
        }
    }
}

/// `%` and `?` are the same wildcard: writing every `%` of a pattern as `?`
/// changes no outcome.
pub proof fn lemma_single_char_wildcards_agree(p: Seq<char>, s: Seq<char>)
    ensures
        glob_matches(p, s) == glob_matches(percent_as_question(p), s),
{
    lemma_aliases_from(p, s, 0, 0);
}

/// Matching a star-free segment against enough name characters forces it to
/// consume exactly its length.
proof fn lemma_star_free_advance(p: Seq<char>, s: Seq<char>, a: int, c: int, len: int)
    requires
        0 <= a,
        a + len <= p.len(),
        0 <= c,
        c + len <= s.len(),
        0 <= len,
        star_free(p, a, len),
        glob_from(p, s, a, c),
    ensures
        glob_from(p, s, a + len, c + len),
    decreases len,
{
    if len > 0 {
        assert(p[a + 0] != '*');
        assert forall|k: int| 0 <= k < len - 1 implies #[trigger] p[(a + 1) + k] != '*' by {
            assert(p[a + (k + 1)] != '*');
        }
        lemma_star_free_advance(p, s, a + 1, c + 1, len - 1);
    }
}

} // verus!

verus! {

/// The paths `a`, `a/b`, `a/b/c`, … built from the pieces of a slash path
/// the way the filter accumulates them: a `/` joins a piece only onto a
/// non-empty prefix.
pub open spec fn path_prefixes(parts: Seq<Seq<char>>) -> Seq<Seq<char>>
    decreases parts.len(),
{
    if parts.len() == 0 {
        Seq::empty()
    } else {
        let prev = path_prefixes(parts.drop_last());
        let acc = if prev.len() == 0 { Seq::<char>::empty() } else { prev.last() };
        let base = if acc.len() == 0 { acc } else { acc.push('/') };
        prev.push(base + parts.last())
    }
}

/// For each file of `walk` (in order) whose display name matches `pattern`,
/// its path and all of its ancestor paths.
pub open spec fn match_paths(walk: Seq<DirEntry>, pattern: Seq<char>) -> Seq<Seq<char>>
    decreases walk.len(),
{
    if walk.len() == 0 {
        Seq::empty()
    } else {
        let e = walk.last();
        match_paths(walk.drop_last(), pattern) + if !e.is_dir && glob_matches(pattern, e.name@) {
            path_prefixes(split_on(e.path@, '/'))
        } else {
            Seq::empty()
        }
    }
}

/// `acc` followed by each of `xs` that is not already present, in order.
pub open spec fn add_new(acc: Seq<Seq<char>>, xs: Seq<Seq<char>>) -> Seq<Seq<char>>
    decreases xs.len(),
{
    if xs.len() == 0 {
        acc
    } else {
        let a = add_new(acc, xs.drop_last());
        if a.contains(xs.last()) {
            a
        } else {
            a.push(xs.last())
        }
    }
}

proof fn lemma_match_paths_add(a: Seq<DirEntry>, b: Seq<DirEntry>, pattern: Seq<char>)
    ensures
        match_paths(a + b, pattern) == match_paths(a, pattern) + match_paths(b, pattern),
    decreases b.len(),
{
    if b.len() == 0 {
        assert(a + b =~= a);
        assert(match_paths(a, pattern) + match_paths(b, pattern) =~= match_paths(a, pattern));
    } else {
        lemma_match_paths_add(a, b.drop_last(), pattern);
        assert((a + b).drop_last() =~= a + b.drop_last());
        assert((a + b).last() == b.last());
        let tail = if !b.last().is_dir && glob_matches(pattern, b.last().name@) {
            path_prefixes(split_on(b.last().path@, '/'))
        } else {
            Seq::empty()
        };
        assert(match_paths(a, pattern) + match_paths(b.drop_last(), pattern) + tail
            =~= match_paths(a, pattern) + (match_paths(b.drop_last(), pattern) + tail));
    }
}

proof fn lemma_add_new_concat(acc: Seq<Seq<char>>, a: Seq<Seq<char>>, b: Seq<Seq<char>>)
    ensures
        add_new(acc, a + b) == add_new(add_new(acc, a), b),
    decreases b.len(),
{
    if b.len() == 0 {
        assert(a + b =~= a);
    } else {
        lemma_add_new_concat(acc, a, b.drop_last());
        assert((a + b).drop_last() =~= a + b.drop_last());
        assert((a + b).last() == b.last());
    }
}

/// `add_new` never repeats an entry, and holds exactly the entries of `acc`
/// and `xs`.
pub proof fn lemma_add_new(acc: Seq<Seq<char>>, xs: Seq<Seq<char>>)
    requires
        acc.no_duplicates(),
    ensures
        add_new(acc, xs).no_duplicates(),
        forall|q: Seq<char>| add_new(acc, xs).contains(q) <==> (acc.contains(q) || xs.contains(q)),
    decreases xs.len(),
{
    if xs.len() > 0 {
        let d = xs.drop_last();
        lemma_add_new(acc, d);
        let a = add_new(acc, d);
        assert forall|q: Seq<char>| add_new(acc, xs).contains(q) <==> (acc.contains(q) || xs.contains(q)) by {
            if xs.contains(q) && !d.contains(q) {
                let k = choose|k: int| 0 <= k < xs.len() && xs[k] == q;
                if k < xs.len() - 1 {
                    assert(d[k] == q);
                }
                assert(q == xs.last());
                if !a.contains(q) {
                    assert(a.push(q)[a.len() as int] == q);
                }
            }
            if d.contains(q) {
                let k = choose|k: int| 0 <= k < d.len() && d[k] == q;
                assert(xs[k] == q);
            }
            if !a.contains(xs.last()) {
                if a.push(xs.last()).contains(q) {
                    let k = choose|k: int| 0 <= k < a.len() + 1 && a.push(xs.last())[k] == q;
                    if k < a.len() {
                        assert(a[k] == q);
                    } else {
                        assert(xs[xs.len() - 1] == q);
                    }
                }
                if a.contains(q) {
                    let k = choose|k: int| 0 <= k < a.len() && a[k] == q;
                    assert(a.push(xs.last())[k] == q);
                }
            }
        }
    }
}

/// Adds the paths of `p` to `out` unless already present.
fn add_path(out: &mut Vec<String>, p: String)
    ensures
        paths_of(final(out)@) == add_new(paths_of(old(out)@), seq![p@]),
{
    proof {
        assert(seq![p@].drop_last() =~= Seq::<Seq<char>>::empty());
        assert(seq![p@].last() == p@);
        let o = paths_of(out@);
        assert(add_new(o, Seq::<Seq<char>>::empty()) == o);
        assert(add_new(o, seq![p@]) == if o.contains(p@) { o } else { o.push(p@) });
    }
    let mut i: usize = 0;
    while i < out.len()
        invariant
            i <= out.len(),
            out@ == old(out)@,
            forall|k: int| 0 <= k < i ==> out@[k]@ != p@,
        decreases out.len() - i,
    {
        if out[i].eq(&p) {
            proof {
                assert(paths_of(out@)[i as int] == p@);
                let o = paths_of(out@);
                assert(seq![p@].drop_last() =~= Seq::<Seq<char>>::empty());
                assert(seq![p@].last() == p@);
                assert(add_new(o, Seq::<Seq<char>>::empty()) == o);
                assert(add_new(o, seq![p@]) == o);
            }
            return;
        }
        i = i + 1;
    }
    proof {
        assert(!paths_of(out@).contains(p@)) by {
            if paths_of(out@).contains(p@) {
                let k = choose|k: int| 0 <= k < paths_of(out@).len() && paths_of(out@)[k] == p@;
                assert(out@[k]@ == p@);
            }
        }
    }
    let ghost before = out@;
    out.push(p);
    proof {
        assert(paths_of(out@) =~= paths_of(before).push(p@));
    }
}

/// The text of each path.
pub open spec fn paths_of(v: Seq<String>) -> Seq<Seq<char>> {
    v.map_values(|s: String| s@)
}

/// Adds the ancestor chain of `path` (and `path` itself) to `out`.
fn add_prefixes(out: &mut Vec<String>, path: &str)
    ensures
        paths_of(final(out)@) == add_new(paths_of(old(out)@), path_prefixes(split_on(path@, '/'))),
{
    let v = chars_of(path);
    let parts = split_vec(v.as_slice(), '/');
    let ghost pv = parts@.map_values(|x: Vec<char>| x@);
    let ghost start = paths_of(out@);
    let mut prefix: Vec<char> = Vec::new();
    let mut i: usize = 0;
    proof {
        assert(pv.take(0) =~= Seq::<Seq<char>>::empty());
    }
    while i < parts.len()
        invariant
            i <= parts.len(),
            pv == parts@.map_values(|x: Vec<char>| x@),
            pv == split_on(path@, '/'),
            paths_of(out@) == add_new(start, path_prefixes(pv.take(i as int))),
            prefix@ == (if i == 0 { Seq::<char>::empty() } else { path_prefixes(pv.take(i as int)).last() }),
            i > 0 ==> path_prefixes(pv.take(i as int)).len() == i,
        decreases parts.len() - i,
    {
        proof {
            assert(pv.take(i + 1).drop_last() =~= pv.take(i as int));
            assert(pv.take(i + 1).last() == parts@[i as int]@);
            if i == 0 {
                assert(path_prefixes(pv.take(0)) =~= Seq::<Seq<char>>::empty());
            }
        }
        if prefix.len() > 0 {
            prefix.push('/');
        }
        append_chars(&mut prefix, parts[i].as_slice());
        let s = string_from_chars(prefix.as_slice());
        proof {
            let prev = path_prefixes(pv.take(i as int));
            assert(path_prefixes(pv.take(i + 1)) == prev.push(s@));
            lemma_add_new_concat(start, prev, seq![s@]);
            assert(prev + seq![s@] =~= prev.push(s@));
        }
        add_path(out, s);
        i = i + 1;
    }
    proof {
        assert(pv.take(i as int) =~= pv);
    }
}

/// Adds the keep-paths of the walk of `e` to `out`.
fn collect_entry(e: &DirEntry, pattern: &str, out: &mut Vec<String>)
    ensures
        paths_of(final(out)@) == add_new(paths_of(old(out)@), match_paths(walk(*e), pattern@)),
    decreases e, 1int,
{
    let ghost start = paths_of(out@);
    proof {
        lemma_match_paths_add(seq![*e], walk_list(e.children@), pattern@);
        assert(seq![*e].drop_last() =~= Seq::<DirEntry>::empty());
        assert(seq![*e].last() == *e);
        assert(match_paths(Seq::<DirEntry>::empty(), pattern@) =~= Seq::<Seq<char>>::empty());
        assert(walk(*e) == seq![*e] + walk_list(e.children@));
        assert(decreases_to!(*e => e.children));
        assert(decreases_to!(e.children => e.children@));
    }
    let ghost own = match_paths(seq![*e], pattern@);
    if !e.is_dir && glob_match(pattern, e.name.as_str()) {
        add_prefixes(out, e.path.as_str());
        proof {
            assert(own =~= Seq::<Seq<char>>::empty() + path_prefixes(split_on(e.path@, '/')));
        }
    } else {
        proof {
            assert(own =~= Seq::<Seq<char>>::empty());
        }
    }
    collect_list(&e.children, pattern, out);
    proof {
        lemma_add_new_concat(start, own, match_paths(walk_list(e.children@), pattern@));
    }
}

/// Adds the keep-paths of the walks of `es` to `out`.
fn collect_list(es: &Vec<DirEntry>, pattern: &str, out: &mut Vec<String>)
    ensures
        paths_of(final(out)@) == add_new(paths_of(old(out)@), match_paths(walk_list(es@), pattern@)),
    decreases es@, 0int,
{
    let ghost start = paths_of(out@);
    let mut i: usize = 0;
    proof {
        assert(es@.subrange(0, 0) =~= Seq::<DirEntry>::empty());
    }
    while i < es.len()
        invariant
            i <= es.len(),
            paths_of(out@) == add_new(start, match_paths(walk_list(es@.subrange(0, i as int)), pattern@)),
        decreases es.len() - i,
    {
        proof {
            let pre = es@.subrange(0, i + 1);
            assert(pre.subrange(0, i as int) =~= es@.subrange(0, i as int));
            assert(pre[i as int] == es@[i as int]);
            lemma_match_paths_add(walk_list(es@.subrange(0, i as int)), walk(es@[i as int]), pattern@);
            lemma_add_new_concat(
                start,
                match_paths(walk_list(es@.subrange(0, i as int)), pattern@),
                match_paths(walk(es@[i as int]), pattern@),
            );
            assert(decreases_to!(es@ => es@[i as int]));
        }
        collect_entry(&es[i], pattern, out);
        i = i + 1;
    }
    proof {
        assert(es@.subrange(0, i as int) =~= es@);
    }
}

/// The tree paths to show for `pattern` (see [`match_paths`]), each once, in
/// the order first reached.
pub(crate) fn collect_matches(entries: &Vec<DirEntry>, pattern: &str) -> (keep: Vec<String>)
    ensures
        paths_of(keep@) == add_new(Seq::empty(), match_paths(walk_list(entries@), pattern@)),
        paths_of(keep@).no_duplicates(),
        forall|q: Seq<char>| paths_of(keep@).contains(q) <==> match_paths(walk_list(entries@), pattern@).contains(q),
{
    let mut keep: Vec<String> = Vec::new();
    proof {
        assert(paths_of(keep@) =~= Seq::<Seq<char>>::empty());
    }
    collect_list(entries, pattern, &mut keep);
    proof {
        lemma_add_new(Seq::empty(), match_paths(walk_list(entries@), pattern@));
    }
    keep
}

/// The tree paths to show for `pattern`: every file whose display name
/// matches, plus all of its ancestor directory paths (so the folder chain to
/// a match stays visible), each path once, in ascending order. Directories
/// are never matched themselves, only kept as ancestors. An empty result
/// means nothing matched. (Ascending order and the set of paths fix the
/// result: see `selection::lemma_ascending_unique`.)
pub fn matching_paths(entries: &Vec<DirEntry>, pattern: &str) -> (keep: Vec<String>)
    ensures
        crate::selection::ascending(paths_of(keep@)),
        paths_of(keep@).no_duplicates(),
        forall|q: Seq<char>| paths_of(keep@).contains(q) <==> match_paths(walk_list(entries@), pattern@).contains(q),
{
    let found = collect_matches(entries, pattern);
    let keep = crate::selection::sorted_paths(&found);
    proof {
        assert(paths_of(keep@) =~= crate::selection::texts(keep@));
        assert(paths_of(found@) =~= crate::selection::texts(found@));
        crate::selection::lemma_ascending_distinct(paths_of(keep@));
    }
    keep
}

} // verus!
