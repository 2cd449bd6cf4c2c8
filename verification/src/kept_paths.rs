//! What the filter's keep-set holds: the paths of the matching files and of
//! the folders on the way to them, and nothing else.

use vstd::prelude::*;

use crate::entry::{walk_list, DirEntry};
use crate::names::{join_slash, lemma_join_split, lemma_split_pieces_plain};
use crate::text::{lemma_split_nonempty, split_on};
use crate::tree_filter::{glob_matches, match_paths, path_prefixes};

verus! {

/// `e` is a file whose name matches `pattern`.
pub open spec fn matching_file(e: DirEntry, pattern: Seq<char>) -> bool {
    !e.is_dir && glob_matches(pattern, e.name@)
}

/// A path with no empty piece between its `/`s: no leading, trailing or
/// doubled `/`, as the paths of a disk's tree are.
pub open spec fn clean_path(p: Seq<char>) -> bool {
    forall|i: int| 0 <= i < split_on(p, '/').len() ==> (#[trigger] split_on(p, '/')[i]).len() > 0
}

proof fn lemma_prefixes_len(ps: Seq<Seq<char>>)
    ensures
        path_prefixes(ps).len() == ps.len(),
    decreases ps.len(),
{
    if ps.len() > 0 {
        lemma_prefixes_len(ps.drop_last());
    }
}

proof fn lemma_join_len_pos(ps: Seq<Seq<char>>)
    requires
        ps.len() >= 1,
        forall|i: int| 0 <= i < ps.len() ==> (#[trigger] ps[i]).len() > 0,
    ensures
        join_slash(ps).len() > 0,
    decreases ps.len(),
{
    if ps.len() > 1 {
        let d = ps.drop_last();
        assert forall|i: int| 0 <= i < d.len() implies (#[trigger] d[i]).len() > 0 by {
            assert(d[i] == ps[i]);
        }
        lemma_join_len_pos(d);
    } else {
        assert(ps[0].len() > 0);
    }
}

/// With no empty piece, the `j`-th prefix is the first `j + 1` pieces joined.
proof fn lemma_prefixes_join(ps: Seq<Seq<char>>)
    requires
        forall|i: int| 0 <= i < ps.len() ==> (#[trigger] ps[i]).len() > 0,
    ensures
        path_prefixes(ps).len() == ps.len(),
        forall|j: int| 0 <= j < ps.len() ==> #[trigger] path_prefixes(ps)[j] == join_slash(ps.take(j + 1)),
    decreases ps.len(),
{
    lemma_prefixes_len(ps);
    if ps.len() > 0 {
        let d = ps.drop_last();
        assert forall|i: int| 0 <= i < d.len() implies (#[trigger] d[i]).len() > 0 by {
            assert(d[i] == ps[i]);
        }
        lemma_prefixes_join(d);
        let prev = path_prefixes(d);
        assert forall|j: int| 0 <= j < ps.len() implies #[trigger] path_prefixes(ps)[j] == join_slash(
            ps.take(j + 1),
        ) by {
            if j < d.len() {
                assert(path_prefixes(ps)[j] == prev[j]);
                assert(d.take(j + 1) =~= ps.take(j + 1));
            } else if d.len() == 0 {
                assert(ps.take(1) =~= seq![ps[0]]);
                assert(path_prefixes(ps)[0] =~= ps.last());
            } else {
                assert(d.take(d.len() as int) =~= d);
                assert(prev.last() == join_slash(d));
                lemma_join_len_pos(d);
                assert(ps.take(j + 1) =~= ps);
                assert(ps.drop_last() =~= d);
                assert(path_prefixes(ps)[j] =~= join_slash(d).push('/') + ps.last());
                assert(join_slash(ps) =~= join_slash(d) + seq!['/'] + ps.last());
            }
        }
    }
}

/// With no empty piece, the first `j + 1` pieces joined, then `/`, start the
/// whole path, when more pieces follow.
proof fn lemma_join_take_slash(ps: Seq<Seq<char>>, j: int)
    requires
        forall|i: int| 0 <= i < ps.len() ==> (#[trigger] ps[i]).len() > 0,
        0 <= j,
        j + 1 < ps.len(),
    ensures
        join_slash(ps.take(j + 1)).len() + 1 <= join_slash(ps).len(),
        join_slash(ps).take(join_slash(ps.take(j + 1)).len() + 1int) == join_slash(ps.take(j + 1)).push('/'),
    decreases ps.len(),
{
    let d = ps.drop_last();
    assert(join_slash(ps) == join_slash(d) + seq!['/'] + ps.last());
    assert(d.take(j + 1) =~= ps.take(j + 1));
    if j + 1 == d.len() {
        assert(d.take(j + 1) =~= d);
        assert(join_slash(ps).take(join_slash(d).len() + 1int) =~= join_slash(d).push('/'));
    } else {
        assert forall|i: int| 0 <= i < d.len() implies (#[trigger] d[i]).len() > 0 by {
            assert(d[i] == ps[i]);
        }
        lemma_join_take_slash(d, j);
        let n = join_slash(ps.take(j + 1)).len() + 1int;
        assert(join_slash(ps).take(n) =~= join_slash(d).take(n));
    }
}

/// With no empty piece and no `/` inside a piece, each `/` of the joined
/// path ends a prefix made of whole pieces.
proof fn lemma_slash_ends_prefix(ps: Seq<Seq<char>>, i: int)
    requires
        forall|k: int| 0 <= k < ps.len() ==> (#[trigger] ps[k]).len() > 0,
        forall|k: int| 0 <= k < ps.len() ==> !(#[trigger] ps[k]).contains('/'),
        0 <= i < join_slash(ps).len(),
        join_slash(ps)[i] == '/',
    ensures
        exists|m: int| 0 <= m && m + 1 < ps.len() && join_slash(ps).take(i) == #[trigger] join_slash(ps.take(m + 1)),
    decreases ps.len(),
{
    if ps.len() == 1 {
        assert(join_slash(ps) == ps[0]);
        assert(ps[0].contains('/'));
    } else {
        let d = ps.drop_last();
        let jd = join_slash(d);
        assert(join_slash(ps) == jd + seq!['/'] + ps.last());
        if i < jd.len() {
            assert forall|k: int| 0 <= k < d.len() implies (#[trigger] d[k]).len() > 0 by {
                assert(d[k] == ps[k]);
            }
            assert forall|k: int| 0 <= k < d.len() implies !(#[trigger] d[k]).contains('/') by {
                assert(d[k] == ps[k]);
            }
            assert(jd[i] == '/');
            lemma_slash_ends_prefix(d, i);
            let m = choose|m: int| 0 <= m && m + 1 < d.len() && jd.take(i) == #[trigger] join_slash(d.take(m + 1));
            assert(d.take(m + 1) =~= ps.take(m + 1));
            assert(join_slash(ps).take(i) =~= jd.take(i));
            assert(join_slash(ps).take(i) == join_slash(ps.take(m + 1)));
        } else if i == jd.len() {
            let m = d.len() - 1;
            assert(ps.take(m + 1) =~= d);
            assert(join_slash(ps).take(i) =~= jd);
            assert(join_slash(ps).take(i) == join_slash(ps.take(m + 1)));
        } else {
            assert(ps.last()[i - jd.len() - 1] == '/');
            assert(ps[ps.len() - 1].contains('/'));
        }
    }
}

/// A path is kept exactly when it is one of the prefixes of a matching file.
proof fn lemma_kept_is_prefix_of_match(w: Seq<DirEntry>, pattern: Seq<char>, q: Seq<char>)
    ensures
        match_paths(w, pattern).contains(q) <==> exists|k: int, j: int|
            0 <= k < w.len() && #[trigger] matching_file(w[k], pattern) && 0 <= j < path_prefixes(
                split_on(w[k].path@, '/'),
            ).len() && #[trigger] path_prefixes(split_on(w[k].path@, '/'))[j] == q,
    decreases w.len(),
{
    if w.len() > 0 {
        let d = w.drop_last();
        lemma_kept_is_prefix_of_match(d, pattern, q);
        let e = w.last();
        let tail = if matching_file(e, pattern) {
            path_prefixes(split_on(e.path@, '/'))
        } else {
            Seq::empty()
        };
        assert(match_paths(w, pattern) == match_paths(d, pattern) + tail);
        if match_paths(w, pattern).contains(q) {
            let t = choose|t: int| 0 <= t < match_paths(w, pattern).len() && match_paths(w, pattern)[t] == q;
            if t < match_paths(d, pattern).len() {
                assert(match_paths(d, pattern)[t] == q);
                let (k, j) = choose|k: int, j: int|
                    0 <= k < d.len() && #[trigger] matching_file(d[k], pattern) && 0 <= j < path_prefixes(
                        split_on(d[k].path@, '/'),
                    ).len() && #[trigger] path_prefixes(split_on(d[k].path@, '/'))[j] == q;
                assert(w[k] == d[k]);
            } else {
                let j = t - match_paths(d, pattern).len();
                assert(tail[j] == q);
                assert(matching_file(w[w.len() - 1], pattern));
                assert(path_prefixes(split_on(w[w.len() - 1].path@, '/'))[j] == q);
            }
        }
        if exists|k: int, j: int|
            0 <= k < w.len() && #[trigger] matching_file(w[k], pattern) && 0 <= j < path_prefixes(
                split_on(w[k].path@, '/'),
            ).len() && #[trigger] path_prefixes(split_on(w[k].path@, '/'))[j] == q {
            let (k, j) = choose|k: int, j: int|
                0 <= k < w.len() && #[trigger] matching_file(w[k], pattern) && 0 <= j < path_prefixes(
                    split_on(w[k].path@, '/'),
                ).len() && #[trigger] path_prefixes(split_on(w[k].path@, '/'))[j] == q;
            if k < d.len() {
                assert(d[k] == w[k]);
                assert(matching_file(d[k], pattern));
                assert(path_prefixes(split_on(d[k].path@, '/'))[j] == q);
                let t = choose|t: int| 0 <= t < match_paths(d, pattern).len() && match_paths(d, pattern)[t] == q;
                assert(match_paths(w, pattern)[t] == q);
            } else {
                assert(tail[j] == q);
                assert(match_paths(w, pattern)[match_paths(d, pattern).len() + j] == q);
            }
        }
    }
}

/// The keep-set of the filter `pattern` over the tree `entries`, as
/// `matching_paths` gives it, when the paths of the matching files are clean:
/// - a kept path is the path of a matching file, or a folder on the way to
///   one (followed by `/` it starts that file's path);
/// - it is closed under `/`-prefixes: the part of a kept path before any of
///   its `/` is kept too;
/// - the path of every matching file, and each folder on the way to it
///   (the part before each `/`), is kept;
/// - it is empty exactly when no file matches.
pub proof fn lemma_kept_paths(entries: Seq<DirEntry>, pattern: Seq<char>, q: Seq<char>, i: int, k: int)
    requires
        forall|n: int|
            0 <= n < walk_list(entries).len() && #[trigger] matching_file(walk_list(entries)[n], pattern)
                ==> clean_path(walk_list(entries)[n].path@),
    ensures
        match_paths(walk_list(entries), pattern).contains(q) ==> exists|n: int|
            0 <= n < walk_list(entries).len() && #[trigger] matching_file(walk_list(entries)[n], pattern) && (q
                == walk_list(entries)[n].path@ || walk_list(entries)[n].path@.take(q.len() + 1int) == q.push('/')),
        match_paths(walk_list(entries), pattern).contains(q) && 0 <= i < q.len() && q[i] == '/' ==> match_paths(
            walk_list(entries),
            pattern,
        ).contains(q.take(i)),
        0 <= k < walk_list(entries).len() && matching_file(walk_list(entries)[k], pattern) ==> {
            let p = walk_list(entries)[k].path@;
            &&& match_paths(walk_list(entries), pattern).contains(p)
            &&& (0 <= i < p.len() && p[i] == '/' ==> match_paths(walk_list(entries), pattern).contains(p.take(i)))
        },
        match_paths(walk_list(entries), pattern).len() == 0 <==> forall|n: int|
            0 <= n < walk_list(entries).len() ==> !#[trigger] matching_file(walk_list(entries)[n], pattern),
{
    let w = walk_list(entries);
    lemma_kept_is_prefix_of_match(w, pattern, q);
    if match_paths(w, pattern).contains(q) {
        let (n, j) = choose|n: int, j: int|
            0 <= n < w.len() && #[trigger] matching_file(w[n], pattern) && 0 <= j < path_prefixes(
                split_on(w[n].path@, '/'),
            ).len() && #[trigger] path_prefixes(split_on(w[n].path@, '/'))[j] == q;
        let p = w[n].path@;
        let ps = split_on(p, '/');
        assert(clean_path(p));
        lemma_prefixes_join(ps);
        lemma_join_split(p);
        lemma_split_pieces_plain(p);
        assert(q == join_slash(ps.take(j + 1)));
        if j + 1 == ps.len() {
            assert(ps.take(j + 1) =~= ps);
            assert(q == p);
        } else {
            lemma_join_take_slash(ps, j);
            assert(p.take(q.len() + 1int) == q.push('/'));
        }
        if 0 <= i < q.len() && q[i] == '/' {
            if q == p {
                lemma_file_prefix_kept(w, pattern, n, i);
            } else {
                assert(p.take(q.len() + 1int)[i] == q.push('/')[i]);
                assert(p[i] == '/');
                lemma_file_prefix_kept(w, pattern, n, i);
                assert(p.take(i) =~= q.take(i)) by {
                    assert forall|t: int| 0 <= t < i implies p.take(i)[t] == q.take(i)[t] by {
                        assert(p.take(q.len() + 1int)[t] == q.push('/')[t]);
                    }
                }
            }
        }
    }
    if 0 <= k < w.len() && matching_file(w[k], pattern) {
        lemma_file_prefix_kept(w, pattern, k, i);
    }
    if match_paths(w, pattern).len() == 0 {
        assert forall|n: int| 0 <= n < w.len() implies !#[trigger] matching_file(w[n], pattern) by {
            if matching_file(w[n], pattern) {
                lemma_file_prefix_kept(w, pattern, n, 0);
                assert(match_paths(w, pattern).contains(w[n].path@));
            }
        }
    } else {
        let q0 = match_paths(w, pattern)[0];
        assert(match_paths(w, pattern).contains(q0));
        lemma_kept_is_prefix_of_match(w, pattern, q0);
    }
}

/// The path of a matching file with a clean path is kept, and so is the
/// part of it before each of its `/`.
proof fn lemma_file_prefix_kept(w: Seq<DirEntry>, pattern: Seq<char>, n: int, i: int)
    requires
        0 <= n < w.len(),
        matching_file(w[n], pattern),
        clean_path(w[n].path@),
    ensures
        match_paths(w, pattern).contains(w[n].path@),
        0 <= i < w[n].path@.len() && w[n].path@[i] == '/' ==> match_paths(w, pattern).contains(w[n].path@.take(i)),
{
    let p = w[n].path@;
    let ps = split_on(p, '/');
    lemma_prefixes_join(ps);
    lemma_join_split(p);
    lemma_split_pieces_plain(p);
    lemma_split_nonempty(p, '/');
    let last = ps.len() - 1;
    assert(ps.take(last + 1) =~= ps);
    assert(path_prefixes(ps)[last] == p);
    lemma_kept_is_prefix_of_match(w, pattern, p);
    if 0 <= i < p.len() && p[i] == '/' {
        lemma_slash_ends_prefix(ps, i);
        let m = choose|m: int| 0 <= m && m + 1 < ps.len() && p.take(i) == #[trigger] join_slash(ps.take(m + 1));
        assert(path_prefixes(ps)[m] == p.take(i));
        lemma_kept_is_prefix_of_match(w, pattern, p.take(i));
    }
}

} // verus!
