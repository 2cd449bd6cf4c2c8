//! The multi-selection of files in the tree: a set of paths kept in
//! ascending order, and the files a batch or row action targets.
use vstd::prelude::*;

use crate::text::{chars_eq, chars_of};
use crate::tree_nav::VisibleRow;

verus! {

/// `a` sorts strictly before `b`: the first character where they differ is
/// smaller in `a`, or `a` is a proper prefix of `b`. This is how `String`s
/// compare (their UTF-8 bytes order as their characters do).
pub open spec fn text_lt(a: Seq<char>, b: Seq<char>) -> bool
    decreases a.len(),
{
    if b.len() == 0 {
        false
    } else if a.len() == 0 {
        true
    } else if a[0] != b[0] {
        a[0] < b[0]
    } else {
        text_lt(a.drop_first(), b.drop_first())
    }
}

/// Each text sorts strictly before the next.
pub open spec fn ascending(s: Seq<Seq<char>>) -> bool {
    forall|i: int, j: int| 0 <= i < j < s.len() ==> text_lt(s[i], s[j])
}

proof fn lemma_lt_irreflexive(a: Seq<char>)
    ensures
        !text_lt(a, a),
    decreases a.len(),
{
    if a.len() > 0 {
        lemma_lt_irreflexive(a.drop_first());
    }
}

proof fn lemma_lt_transitive(a: Seq<char>, b: Seq<char>, c: Seq<char>)
    requires
        text_lt(a, b),
        text_lt(b, c),
    ensures
        text_lt(a, c),
    decreases a.len(),
{
    if a.len() > 0 && b.len() > 0 && c.len() > 0 {
        if a[0] == b[0] && b[0] == c[0] {
            lemma_lt_transitive(a.drop_first(), b.drop_first(), c.drop_first());
        }
    }
}

proof fn lemma_lt_total(a: Seq<char>, b: Seq<char>)
    ensures
        a == b || text_lt(a, b) || text_lt(b, a),
    decreases a.len(),
{
    if a.len() > 0 && b.len() > 0 && a[0] == b[0] {
        lemma_lt_total(a.drop_first(), b.drop_first());
        if a.drop_first() == b.drop_first() {
            assert(a =~= seq![a[0]] + a.drop_first());
            assert(b =~= seq![b[0]] + b.drop_first());
        }
    } else if a.len() == 0 && b.len() == 0 {
        assert(a =~= b);
    }
}

/// Whether `a` sorts strictly before `b`.
fn text_less(a: &[char], b: &[char]) -> (r: bool)
    ensures
        r == text_lt(a@, b@),
{
    let mut i: usize = 0;
    proof {
        assert(a@.skip(0) =~= a@);
        assert(b@.skip(0) =~= b@);
    }
    while i < a.len() && i < b.len() && a[i] == b[i]
        invariant
            i <= a@.len(),
            i <= b@.len(),
            text_lt(a@, b@) == text_lt(a@.skip(i as int), b@.skip(i as int)),
        decreases a@.len() - i,
    {
        proof {
            assert(a@.skip(i as int).drop_first() =~= a@.skip(i + 1));
            assert(b@.skip(i as int).drop_first() =~= b@.skip(i + 1));
        }
        i = i + 1;
    }
    if i == b.len() {
        false
    } else if i == a.len() {
        true
    } else {
        a[i] < b[i]
    }
}

/// `after` holds the paths of `before` with `path`'s membership flipped.
pub open spec fn toggled(before: Seq<Seq<char>>, after: Seq<Seq<char>>, path: Seq<char>) -> bool {
    forall|t: Seq<char>| after.contains(t) <==> (before.contains(t) != (t == path))
}

/// An ascending sequence holds each text once.
pub proof fn lemma_ascending_distinct(s: Seq<Seq<char>>)
    requires
        ascending(s),
    ensures
        s.no_duplicates(),
{
    assert forall|i: int, j: int| 0 <= i < s.len() && 0 <= j < s.len() && i != j implies s[i] != s[j] by {
        if i < j {
            assert(text_lt(s[i], s[j]));
        } else {
            assert(text_lt(s[j], s[i]));
        }
        lemma_lt_irreflexive(s[i]);
    }
}

/// Two ascending sequences that hold the same texts are the same sequence:
/// a sorted listing of a set of paths is fixed by which paths it holds.
pub proof fn lemma_ascending_unique(a: Seq<Seq<char>>, b: Seq<Seq<char>>)
    requires
        ascending(a),
        ascending(b),
        forall|t: Seq<char>| a.contains(t) <==> b.contains(t),
    ensures
        a == b,
    decreases a.len(),
{
    if a.len() == 0 {
        if b.len() > 0 {
            assert(b.contains(b[0]));
        }
        assert(a =~= b);
    } else if b.len() == 0 {
        assert(a.contains(a[0]));
    } else {
        assert(a.contains(a[0]));
        assert(b.contains(b[0]));
        let ka = choose|k: int| 0 <= k < a.len() && a[k] == b[0];
        let kb = choose|k: int| 0 <= k < b.len() && b[k] == a[0];
        if a[0] != b[0] {
            assert(ka > 0 && kb > 0);
            assert(text_lt(a[0], a[ka]));
            assert(text_lt(b[0], b[kb]));
            lemma_lt_transitive(a[0], b[0], a[0]);
            lemma_lt_irreflexive(a[0]);
        }
        let ta = a.drop_first();
        let tb = b.drop_first();
        assert forall|t: Seq<char>| ta.contains(t) <==> tb.contains(t) by {
            if ta.contains(t) {
                let k = choose|k: int| 0 <= k < ta.len() && ta[k] == t;
                assert(a[k + 1] == t);
                assert(a.contains(t));
                let j = choose|j: int| 0 <= j < b.len() && b[j] == t;
                if j == 0 {
                    assert(text_lt(a[0], a[k + 1]));
                    lemma_lt_irreflexive(a[0]);
                }
                assert(tb[j - 1] == t);
            }
            if tb.contains(t) {
                let k = choose|k: int| 0 <= k < tb.len() && tb[k] == t;
                assert(b[k + 1] == t);
                assert(b.contains(t));
                let j = choose|j: int| 0 <= j < a.len() && a[j] == t;
                if j == 0 {
                    assert(text_lt(b[0], b[k + 1]));
                    lemma_lt_irreflexive(b[0]);
                }
                assert(ta[j - 1] == t);
            }
        }
        assert(ascending(ta)) by {
            assert forall|i: int, j: int| 0 <= i < j < ta.len() implies text_lt(ta[i], ta[j]) by {
                assert(ta[i] == a[i + 1] && ta[j] == a[j + 1]);
            }
        }
        assert(ascending(tb)) by {
            assert forall|i: int, j: int| 0 <= i < j < tb.len() implies text_lt(tb[i], tb[j]) by {
                assert(tb[i] == b[i + 1] && tb[j] == b[j + 1]);
            }
        }
        lemma_ascending_unique(ta, tb);
        assert(a =~= seq![a[0]] + ta);
        assert(b =~= seq![b[0]] + tb);
    }
}

/// Cmd/Ctrl-clicking a file twice leaves the selection as it was.
pub proof fn lemma_toggle_twice_restores(
    before: Seq<Seq<char>>,
    mid: Seq<Seq<char>>,
    after: Seq<Seq<char>>,
    path: Seq<char>,
)
    requires
        ascending(before),
        ascending(after),
        toggled(before, mid, path),
        toggled(mid, after, path),
    ensures
        after == before,
{
    assert forall|t: Seq<char>| after.contains(t) <==> before.contains(t) by {
        assert(after.contains(t) <==> (mid.contains(t) != (t == path)));
        assert(mid.contains(t) <==> (before.contains(t) != (t == path)));
    }
    lemma_ascending_unique(after, before);
}

/// The text of each path.
pub open spec fn texts(v: Seq<String>) -> Seq<Seq<char>> {
    v.map_values(|s: String| s@)
}

/// The marked paths, each once, in ascending order.
#[derive(Debug)]
pub struct Selection {
    items: Vec<String>,
}

impl View for Selection {
    type V = Seq<Seq<char>>;

    closed spec fn view(&self) -> Seq<Seq<char>> {
        texts(self.items@)
    }
}

impl Selection {
    #[verifier::type_invariant]
    closed spec fn inv(self) -> bool {
        ascending(texts(self.items@))
    }

    /// An empty selection.
    pub fn new() -> (s: Self)
        ensures
            s@ == Seq::<Seq<char>>::empty(),
    {
        let s = Selection { items: Vec::new() };
        proof {
            assert(texts(s.items@) =~= Seq::<Seq<char>>::empty());
        }
        s
    }

    /// The marked paths are in ascending order, each once.
    pub fn is_ascending(&self) -> (r: bool)
        ensures
            r,
            ascending(self@),
    {
        proof {
            use_type_invariant(self);
        }
        true
    }

    /// How many paths are marked.
    pub fn len(&self) -> (r: usize)
        ensures
            r == self@.len(),
    {
        self.items.len()
    }

    /// Whether nothing is marked.
    pub fn is_empty(&self) -> (r: bool)
        ensures
            r == (self@.len() == 0),
    {
        self.items.len() == 0
    }

    /// Whether `path` is marked.
    pub fn contains(&self, path: &str) -> (r: bool)
        ensures
            r == self@.contains(path@),
    {
        let p = chars_of(path);
        let mut i: usize = 0;
        while i < self.items.len()
            invariant
                i <= self.items@.len(),
                p@ == path@,
                forall|k: int| 0 <= k < i ==> texts(self.items@)[k] != path@,
            decreases self.items@.len() - i,
        {
            let q = chars_of(self.items[i].as_str());
            if chars_eq(q.as_slice(), p.as_slice()) {
                proof {
                    assert(texts(self.items@)[i as int] == path@);
                }
                return true;
            }
            i = i + 1;
        }
        false
    }

    /// Unmarks everything.
    pub fn clear(&mut self)
        ensures
            final(self)@ == Seq::<Seq<char>>::empty(),
    {
        self.items = Vec::new();
        proof {
            assert(texts(self.items@) =~= Seq::<Seq<char>>::empty());
        }
    }

    /// Marks `path`, keeping the order; `false` when it was already marked.
    pub fn insert(&mut self, path: String) -> (added: bool)
        ensures
            added == !old(self)@.contains(path@),
            ascending(final(self)@),
            forall|t: Seq<char>| final(self)@.contains(t) <==> (old(self)@.contains(t) || t == path@),
    {
        proof {
            use_type_invariant(&*self);
        }
        let ghost old_items = texts(self.items@);
        let p = chars_of(path.as_str());
        let mut i: usize = 0;
        let mut searching = true;
        while searching && i < self.items.len()
            invariant
                i <= self.items@.len(),
                p@ == path@,
                old_items == texts(self.items@),
                ascending(old_items),
                forall|k: int| 0 <= k < i ==> text_lt(#[trigger] old_items[k], path@),
                !searching ==> i < old_items.len() && !text_lt(old_items[i as int], path@),
            decreases self.items@.len() - i, (if searching { 1int } else { 0int }),
        {
            let q = chars_of(self.items[i].as_str());
            if text_less(q.as_slice(), p.as_slice()) {
                i = i + 1;
            } else {
                searching = false;
            }
        }
        if i < self.items.len() {
            let q = chars_of(self.items[i].as_str());
            if chars_eq(q.as_slice(), p.as_slice()) {
                proof {
                    assert(old_items[i as int] == path@);
                    assert(old_items.contains(path@));
                }
                return false;
            }
        }
        proof {
            if i < old_items.len() {
                lemma_lt_total(old_items[i as int], path@);
                assert(text_lt(path@, old_items[i as int]));
            }
            assert forall|k: int| 0 <= k < old_items.len() implies old_items[k] != path@ by {
                if k < i {
                    lemma_lt_irreflexive(path@);
                } else {
                    if k > i {
                        lemma_lt_transitive(path@, old_items[i as int], old_items[k]);
                    }
                    lemma_lt_irreflexive(path@);
                }
            }
        }
        let mut items: Vec<String> = Vec::new();
        std::mem::swap(&mut items, &mut self.items);
        items.insert(i, path);
        proof {
            let n = texts(items@);
            assert(n =~= old_items.insert(i as int, path@));
            assert forall|a: int, b: int| 0 <= a < b < n.len() implies text_lt(n[a], n[b]) by {
                if b < i {
                } else if b == i {
                } else if a < i {
                    if i < old_items.len() {
                        lemma_lt_transitive(old_items[a], path@, old_items[i as int]);
                        if b - 1 > i {
                            lemma_lt_transitive(old_items[a], old_items[i as int], old_items[b - 1]);
                        }
                    }
                } else if a == i {
                    if b - 1 > i {
                        lemma_lt_transitive(path@, old_items[i as int], old_items[b - 1]);
                    }
                } else {
                }
            }
            assert forall|t: Seq<char>| n.contains(t) <==> (old_items.contains(t) || t == path@) by {
                if n.contains(t) {
                    let k = choose|k: int| 0 <= k < n.len() && n[k] == t;
                    if k < i {
                        assert(old_items[k] == t);
                    } else if k > i {
                        assert(old_items[k - 1] == t);
                    }
                }
                if old_items.contains(t) {
                    let k = choose|k: int| 0 <= k < old_items.len() && old_items[k] == t;
                    if k < i {
                        assert(n[k] == t);
                    } else {
                        assert(n[k + 1] == t);
                    }
                }
                if t == path@ {
                    assert(n[i as int] == t);
                }
            }
        }
        self.items = items;
        true
    }

    /// Unmarks `path`; `false` when it was not marked.
    pub fn remove(&mut self, path: &str) -> (removed: bool)
        ensures
            removed == old(self)@.contains(path@),
            ascending(final(self)@),
            forall|t: Seq<char>| final(self)@.contains(t) <==> (old(self)@.contains(t) && t != path@),
    {
        proof {
            use_type_invariant(&*self);
        }
        let ghost old_items = texts(self.items@);
        let p = chars_of(path);
        let mut i: usize = 0;
        while i < self.items.len()
            invariant
                i <= self.items@.len(),
                p@ == path@,
                old_items == texts(self.items@),
                old_items == old(self)@,
                ascending(old_items),
                forall|k: int| 0 <= k < i ==> old_items[k] != path@,
            decreases self.items@.len() - i,
        {
            let q = chars_of(self.items[i].as_str());
            if chars_eq(q.as_slice(), p.as_slice()) {
                let mut items: Vec<String> = Vec::new();
                std::mem::swap(&mut items, &mut self.items);
                items.remove(i);
                proof {
                    let n = texts(items@);
                    assert(old_items[i as int] == path@);
                    assert(old_items.contains(path@));
                    assert(n =~= old_items.remove(i as int));
                    assert forall|a: int, b: int| 0 <= a < b < n.len() implies text_lt(n[a], n[b]) by {
                        let a2 = if a < i { a } else { a + 1 };
                        let b2 = if b < i { b } else { b + 1 };
                        assert(n[a] == old_items[a2]);
                        assert(n[b] == old_items[b2]);
                    }
                    assert forall|t: Seq<char>| n.contains(t) <==> (old_items.contains(t) && t != path@) by {
                        if n.contains(t) {
                            let k = choose|k: int| 0 <= k < n.len() && n[k] == t;
                            let k2 = if k < i { k } else { k + 1 };
                            assert(old_items[k2] == t);
                            if t == path@ {
                                if k2 < i {
                                } else {
                                    lemma_lt_irreflexive(path@);
                                    if k2 > i {
                                        assert(text_lt(old_items[i as int], old_items[k2]));
                                    }
                                }
                            }
                        }
                        if old_items.contains(t) && t != path@ {
                            let k = choose|k: int| 0 <= k < old_items.len() && old_items[k] == t;
                            if k < i {
                                assert(n[k] == t);
                            } else {
                                assert(k != i);
                                assert(n[k - 1] == t);
                            }
                        }
                    }
                }
                self.items = items;
                return true;
            }
            i = i + 1;
        }
        proof {
            assert(!old_items.contains(path@));
            assert forall|t: Seq<char>| old_items.contains(t) <==> (old_items.contains(t) && t != path@) by {}
        }
        false
    }

    /// Marks `path` when it is unmarked and unmarks it when it is marked
    /// (a Cmd/Ctrl-click on a file).
    pub fn toggle(&mut self, path: String)
        ensures
            ascending(final(self)@),
            toggled(old(self)@, final(self)@, path@),
    {
        if !self.remove(path.as_str()) {
            self.insert(path);
        }
    }

    /// Makes `path` the only marked path (a plain click on a file).
    pub fn select_only(&mut self, path: String)
        ensures
            final(self)@ == seq![path@],
    {
        let ghost p = path@;
        self.clear();
        self.insert(path);
        proof {
            use_type_invariant(&*self);
            assert(ascending(seq![p]));
            assert forall|t: Seq<char>| self@.contains(t) <==> seq![p].contains(t) by {
                if seq![p].contains(t) {
                    assert(seq![p][0] == p);
                }
                if t == p {
                    assert(seq![p][0] == t);
                }
            }
            lemma_ascending_unique(self@, seq![p]);
        }
    }

    /// The marked paths, in ascending order.
    pub fn paths(&self) -> (r: Vec<String>)
        ensures
            texts(r@) == self@,
            ascending(self@),
    {
        proof {
            use_type_invariant(self);
        }
        let mut r: Vec<String> = Vec::new();
        let mut i: usize = 0;
        while i < self.items.len()
            invariant
                i <= self.items@.len(),
                r@.len() == i,
                texts(r@) == texts(self.items@).take(i as int),
            decreases self.items@.len() - i,
        {
            let c = self.items[i].clone();
            let ghost r0 = r@;
            r.push(c);
            proof {
                assert(c@ == self.items@[i as int]@);
                assert(r@ == r0.push(c));
                assert forall|k: int| 0 <= k < i + 1 implies #[trigger] texts(r@)[k] == texts(self.items@)[k] by {
                    if k < i {
                        assert(r@[k] == r0[k]);
                        assert(texts(r0)[k] == texts(self.items@).take(i as int)[k]);
                    }
                }
            }
            i = i + 1;
            proof {
                assert(texts(r@) =~= texts(self.items@).take(i as int));
            }
        }
        proof {
            assert(texts(self.items@).take(i as int) =~= texts(self.items@));
        }
        r
    }
}

/// The distinct texts of `v` in ascending order.
pub fn sorted_paths(v: &Vec<String>) -> (r: Vec<String>)
    ensures
        ascending(texts(r@)),
        forall|q: Seq<char>| texts(r@).contains(q) <==> texts(v@).contains(q),
{
    let mut set = Selection::new();
    let mut i: usize = 0;
    while i < v.len()
        invariant
            i <= v@.len(),
            forall|q: Seq<char>| set@.contains(q) <==> texts(v@).take(i as int).contains(q),
        decreases v@.len() - i,
    {
        set.insert(v[i].clone());
        proof {
            let t = texts(v@).take(i + 1);
            let u = texts(v@).take(i as int);
            assert forall|q: Seq<char>| set@.contains(q) <==> t.contains(q) by {
                if t.contains(q) {
                    let k = choose|k: int| 0 <= k < t.len() && t[k] == q;
                    if k < i {
                        assert(u[k] == q);
                    }
                }
                if u.contains(q) {
                    let k = choose|k: int| 0 <= k < u.len() && u[k] == q;
                    assert(t[k] == q);
                }
                if q == v@[i as int]@ {
                    assert(t[i as int] == q);
                }
            }
        }
        i = i + 1;
    }
    proof {
        assert(texts(v@).take(i as int) =~= texts(v@));
    }
    set.paths()
}

/// The files targeted by batch operations: the marked paths in ascending
/// order, or the single viewed file when nothing is marked (nothing when no
/// file is viewed either).
pub fn selection_paths(selection: &Selection, selected: Option<&str>) -> (r: Vec<String>)
    ensures
        texts(r@) == (if selection@.len() == 0 {
            match selected {
                Some(s) => seq![s@],
                None => Seq::empty(),
            }
        } else {
            selection@
        }),
{
    if selection.is_empty() {
        let mut r: Vec<String> = Vec::new();
        match selected {
            Some(s) => {
                r.push(s.to_string());
                proof {
                    assert(texts(r@) =~= seq![s@]);
                }
            },
            None => {
                proof {
                    assert(texts(r@) =~= Seq::<Seq<char>>::empty());
                }
            },
        }
        r
    } else {
        selection.paths()
    }
}

/// The files a row-level action targets: the whole multi-selection when the
/// clicked row is part of one of two or more files, otherwise just that row.
/// Shared by the right-click menu and drag-out so both follow the same rule.
pub fn paths_for_row(selection: &Selection, path: &str) -> (r: Vec<String>)
    ensures
        texts(r@) == (if selection@.len() > 1 && selection@.contains(path@) {
            selection@
        } else {
            seq![path@]
        }),
{
    if selection.len() > 1 && selection.contains(path) {
        selection.paths()
    } else {
        let mut r: Vec<String> = Vec::new();
        r.push(path.to_string());
        proof {
            assert(texts(r@) =~= seq![path@]);
        }
        r
    }
}

/// Row `k` of `rows` is a file whose path is `t`.
pub open spec fn file_row_at(rows: Seq<VisibleRow>, k: int, t: Seq<char>) -> bool {
    0 <= k < rows.len() && !rows[k].is_dir && rows[k].path@ == t
}

/// `t` was marked at the start, or is the path of a file among the first
/// `n` rows.
spec fn covered(start: Seq<Seq<char>>, rows: Seq<VisibleRow>, n: int, t: Seq<char>) -> bool {
    start.contains(t) || exists|k: int| k < n && #[trigger] file_row_at(rows, k, t)
}

proof fn lemma_covered_step(start: Seq<Seq<char>>, rows: Seq<VisibleRow>, n: int, t: Seq<char>)
    ensures
        covered(start, rows, n + 1, t) == (covered(start, rows, n, t) || file_row_at(rows, n, t)),
{
    if exists|k: int| k < n + 1 && #[trigger] file_row_at(rows, k, t) {
        let k = choose|k: int| k < n + 1 && #[trigger] file_row_at(rows, k, t);
        if k < n {
            assert(covered(start, rows, n, t));
        }
    }
    if exists|k: int| k < n && #[trigger] file_row_at(rows, k, t) {
        let k = choose|k: int| k < n && #[trigger] file_row_at(rows, k, t);
        assert(k < n + 1 && file_row_at(rows, k, t));
    }
    if file_row_at(rows, n, t) {
        assert(n < n + 1 && file_row_at(rows, n, t));
    }
}

/// Marks every visible file row (directories are left out).
pub fn select_all_files(selection: &mut Selection, rows: &[VisibleRow])
    ensures
        ascending(final(selection)@),
        forall|t: Seq<char>| final(selection)@.contains(t) <==> (old(selection)@.contains(t) || exists|k: int|
            #[trigger] file_row_at(rows@, k, t)),
{
    let ghost start = selection@;
    let mut i: usize = 0;
    proof {
        use_type_invariant(&*selection);
    }
    while i < rows.len()
        invariant
            i <= rows@.len(),
            ascending(selection@),
            forall|t: Seq<char>| #[trigger] selection@.contains(t) == covered(start, rows@, i as int, t),
        decreases rows@.len() - i,
    {
        let ghost before = selection@;
        if !rows[i].is_dir {
            let c = rows[i].path.clone();
            selection.insert(c);
            proof {
                assert forall|t: Seq<char>| #[trigger] selection@.contains(t) == covered(start, rows@, i + 1, t) by {
                    lemma_covered_step(start, rows@, i as int, t);
                    assert(before.contains(t) == covered(start, rows@, i as int, t));
                    assert(file_row_at(rows@, i as int, t) == (t == c@));
                }
            }
        } else {
            proof {
                assert forall|t: Seq<char>| #[trigger] selection@.contains(t) == covered(start, rows@, i + 1, t) by {
                    lemma_covered_step(start, rows@, i as int, t);
                    assert(!file_row_at(rows@, i as int, t));
                }
            }
        }
        i = i + 1;
    }
    proof {
        assert forall|t: Seq<char>| final(selection)@.contains(t) <==> (start.contains(t) || exists|k: int|
            #[trigger] file_row_at(rows@, k, t)) by {
            assert(selection@.contains(t) == covered(start, rows@, i as int, t));
            if exists|k: int| #[trigger] file_row_at(rows@, k, t) {
                let k = choose|k: int| #[trigger] file_row_at(rows@, k, t);
                assert(k < i && file_row_at(rows@, k, t));
            }
        }
    }
}

} // verus!
