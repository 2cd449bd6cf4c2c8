//! Persisted application settings: the recent-files list and the hex-view
//! display options driven by the View menu.
use vstd::prelude::*;

use crate::i18n::Lang;

verus! {

/// Maximum number of entries kept in the recent-files list.
pub const MAX_RECENT: usize = 10;

/// Selectable bytes-per-row sizes offered by the View menu.
pub const ROW_SIZES: [usize; 4] = [8, 16, 24, 32];

/// The text of each path, in order.
pub open spec fn paths_view(v: Seq<String>) -> Seq<Seq<char>> {
    v.map_values(|p: String| p@)
}

/// `s` cut down to at most [`MAX_RECENT`] entries.
pub open spec fn cap_recent(s: Seq<Seq<char>>) -> Seq<Seq<char>> {
    if s.len() > MAX_RECENT {
        s.take(MAX_RECENT as int)
    } else {
        s
    }
}

/// `s` with every occurrence of `x` removed, order kept.
pub open spec fn without(s: Seq<Seq<char>>, x: Seq<char>) -> Seq<Seq<char>>
    decreases s.len(),
{
    if s.len() == 0 {
        s
    } else if s.last() == x {
        without(s.drop_last(), x)
    } else {
        without(s.drop_last(), x).push(s.last())
    }
}

/// The recent list after opening `path`: `path` first, then the previous
/// entries other than `path` in their order, capped at [`MAX_RECENT`].
pub open spec fn pushed_recent(recent: Seq<Seq<char>>, path: Seq<char>) -> Seq<Seq<char>> {
    cap_recent(seq![path] + without(recent, path))
}

/// `own` followed by each entry of `other` that is not already present (in
/// `own` or earlier in `other`), in `other` order.
pub open spec fn union_append(own: Seq<Seq<char>>, other: Seq<Seq<char>>) -> Seq<Seq<char>>
    decreases other.len(),
{
    if other.len() == 0 {
        own
    } else {
        let u = union_append(own, other.drop_last());
        if u.contains(other.last()) {
            u
        } else {
            u.push(other.last())
        }
    }
}

/// The recent list after merging another instance's list into it.
pub open spec fn merged_recent(own: Seq<Seq<char>>, other: Seq<Seq<char>>) -> Seq<Seq<char>> {
    cap_recent(union_append(own, other))
}

/// Facts about removing every occurrence of `x`.
proof fn lemma_without(s: Seq<Seq<char>>, x: Seq<char>)
    ensures
        !without(s, x).contains(x),
        without(s, x).len() <= s.len(),
        forall|y: Seq<char>| y != x ==> (without(s, x).contains(y) <==> s.contains(y)),
        s.no_duplicates() ==> without(s, x).no_duplicates(),
        !s.contains(x) ==> without(s, x) == s,
    decreases s.len(),
{
    if s.len() > 0 {
        let d = s.drop_last();
        lemma_without(d, x);
        assert(s =~= d.push(s.last()));
        assert forall|y: Seq<char>| y != x implies (without(s, x).contains(y) <==> s.contains(y)) by {
            lemma_push_contains(d, s.last(), y);
            if s.last() != x {
                lemma_push_contains(without(d, x), s.last(), y);
            }
        }
        if s.last() != x {
            assert(!without(s, x).contains(x)) by {
                if without(s, x).contains(x) {
                    let k = choose|k: int| 0 <= k < without(s, x).len() && without(s, x)[k] == x;
                    assert(without(d, x)[k] == x);
                }
            }
        }
        if s.no_duplicates() {
            assert(d.no_duplicates());
            if s.last() != x {
                assert(!d.contains(s.last()));
                assert(!without(d, x).contains(s.last()));
            }
        }
        if !s.contains(x) {
            assert(!d.contains(x)) by {
                if d.contains(x) {
                    let k = choose|k: int| 0 <= k < d.len() && d[k] == x;
                    assert(s[k] == x);
                }
            }
            assert(s.last() != x);
        }
    }
}

/// An element is in `a.push(b)` exactly when it is `b` or already in `a`.
proof fn lemma_push_contains(a: Seq<Seq<char>>, b: Seq<char>, y: Seq<char>)
    ensures
        a.push(b).contains(y) <==> (a.contains(y) || y == b),
{
    if a.contains(y) {
        let k = choose|k: int| 0 <= k < a.len() && a[k] == y;
        assert(a.push(b)[k] == y);
    }
    if y == b {
        assert(a.push(b)[a.len() as int] == y);
    }
    if a.push(b).contains(y) {
        let k = choose|k: int| 0 <= k < a.push(b).len() && a.push(b)[k] == y;
        if k < a.len() {
            assert(a[k] == y);
        }
    }
}

/// Facts about appending the entries of `other` that are not yet present.
proof fn lemma_union_append(own: Seq<Seq<char>>, other: Seq<Seq<char>>)
    ensures
        union_append(own, other).len() >= own.len(),
        union_append(own, other).take(own.len() as int) == own,
        own.no_duplicates() ==> union_append(own, other).no_duplicates(),
        other.len() == 0 ==> union_append(own, other) == own,
    decreases other.len(),
{
    if other.len() > 0 {
        let d = other.drop_last();
        lemma_union_append(own, d);
        let u = union_append(own, d);
        if !u.contains(other.last()) {
            assert(u.push(other.last()).take(own.len() as int) =~= u.take(own.len() as int));
        }
    }
}

/// Cutting a list down to the cap keeps its leading entries and its lack of
/// duplicates.
proof fn lemma_cap(s: Seq<Seq<char>>)
    ensures
        cap_recent(s).len() <= MAX_RECENT,
        cap_recent(s).len() == if s.len() > MAX_RECENT { MAX_RECENT as nat } else { s.len() },
        forall|k: int| 0 <= k < cap_recent(s).len() ==> #[trigger] cap_recent(s)[k] == s[k],
        s.no_duplicates() ==> cap_recent(s).no_duplicates(),
{
}

/// Opening a file puts it first in the recent list, keeps the list within
/// [`MAX_RECENT`] entries, leaves no other copy of it behind, and keeps a
/// duplicate-free list duplicate-free.
pub proof fn lemma_push_recent_front(recent: Seq<Seq<char>>, path: Seq<char>)
    ensures
        pushed_recent(recent, path).len() >= 1,
        pushed_recent(recent, path).len() <= MAX_RECENT,
        pushed_recent(recent, path)[0] == path,
        forall|k: int| 1 <= k < pushed_recent(recent, path).len() ==> #[trigger] pushed_recent(recent, path)[k] != path,
        recent.no_duplicates() ==> pushed_recent(recent, path).no_duplicates(),
{
    let w = without(recent, path);
    lemma_without(recent, path);
    let full = seq![path] + w;
    lemma_cap(full);
    assert forall|k: int| 1 <= k < pushed_recent(recent, path).len() implies #[trigger] pushed_recent(recent, path)[k] != path by {
        assert(full[k] == w[k - 1]);
    }
    if recent.no_duplicates() {
        assert(full.no_duplicates()) by {
            assert forall|i: int, j: int| 0 <= i < full.len() && 0 <= j < full.len() && i != j implies full[i] != full[j] by {
                if i == 0 {
                    assert(full[j] == w[j - 1]);
                } else if j == 0 {
                    assert(full[i] == w[i - 1]);
                } else {
                    assert(full[i] == w[i - 1] && full[j] == w[j - 1]);
                }
            }
        }
    }
}

/// Opening the most recently opened file again leaves the list unchanged.
pub proof fn lemma_push_recent_idempotent(recent: Seq<Seq<char>>, path: Seq<char>)
    ensures
        pushed_recent(pushed_recent(recent, path), path) == pushed_recent(recent, path),
{
    let once = pushed_recent(recent, path);
    lemma_push_recent_front(recent, path);
    let w = without(recent, path);
    lemma_without(recent, path);
    let rest = once.drop_first();
    assert(!rest.contains(path)) by {
        if rest.contains(path) {
            let k = choose|k: int| 0 <= k < rest.len() && rest[k] == path;
            assert(once[k + 1] == path);
        }
    }
    assert(once =~= seq![path] + rest);
    lemma_without_prepend_other(rest, path);
    assert(without(once, path) == without(rest, path));
    lemma_without(rest, path);
    assert(without(once, path) == rest);
    assert(seq![path] + without(once, path) =~= once);
    lemma_cap(once);
    assert(cap_recent(once) =~= once);
}

/// Removing `x` from a list that starts with `x` drops that first entry too.
/// Forgetting a path leaves it nowhere in the recent list, keeps every other
/// entry, and never grows the list or adds a duplicate.
pub proof fn lemma_forget_recent(recent: Seq<Seq<char>>, path: Seq<char>)
    ensures
        !without(recent, path).contains(path),
        forall|y: Seq<char>| y != path ==> (without(recent, path).contains(y) <==> recent.contains(y)),
        without(recent, path).len() <= recent.len(),
        recent.no_duplicates() ==> without(recent, path).no_duplicates(),
        !recent.contains(path) ==> without(recent, path) == recent,
{
    lemma_without(recent, path);
}

proof fn lemma_without_prepend_other(rest: Seq<Seq<char>>, x: Seq<char>)
    ensures
        without(seq![x] + rest, x) == without(rest, x),
    decreases rest.len(),
{
    if rest.len() > 0 {
        let d = rest.drop_last();
        lemma_without_prepend_other(d, x);
        assert((seq![x] + rest).drop_last() =~= seq![x] + d);
        assert((seq![x] + rest).last() == rest.last());
    } else {
        assert(seq![x] + rest =~= seq![x]);
        assert(seq![x].drop_last() =~= Seq::<Seq<char>>::empty());
        assert(without(Seq::<Seq<char>>::empty(), x) == Seq::<Seq<char>>::empty());
        assert(without(seq![x], x) == without(seq![x].drop_last(), x));
    }
}

/// Merging another instance's list keeps this instance's own entries, in
/// their order, at the front (when the own list is within the cap), never
/// grows past [`MAX_RECENT`], and keeps a duplicate-free list duplicate-free.
/// Merging an empty list changes nothing.
pub proof fn lemma_merge_recent(own: Seq<Seq<char>>, other: Seq<Seq<char>>)
    ensures
        merged_recent(own, other).len() <= MAX_RECENT,
        own.len() <= MAX_RECENT ==> merged_recent(own, other).take(own.len() as int) == own,
        own.no_duplicates() ==> merged_recent(own, other).no_duplicates(),
        own.len() <= MAX_RECENT && other.len() == 0 ==> merged_recent(own, other) == own,
{
    let u = union_append(own, other);
    lemma_union_append(own, other);
    lemma_cap(u);
    if own.len() <= MAX_RECENT {
        assert(merged_recent(own, other).take(own.len() as int) =~= u.take(own.len() as int));
    }
}

/// All persisted settings.
#[derive(Debug, Clone, PartialEq, Eq)]
pub struct Settings {
    /// Recently opened image paths, most-recent-first, capped at [`MAX_RECENT`].
    pub recent: Vec<String>,
    /// Whether the bottom status bar is shown.
    pub show_status_bar: bool,
    /// Hex-view display options.
    pub hex: HexViewOptions,
    /// Chosen UI language. `None` means "follow the OS locale"; a `Some` value
    /// is the user's explicit, persisted choice.
    pub language: Option<Lang>,
    /// Whether to check for a newer release on startup (opt-out).
    pub check_for_updates: bool,
    /// Unix time (seconds) of the last successful update check, for
    /// throttling. `None` means "never checked".
    pub last_update_check: Option<u64>,
}

impl Default for Settings {
    fn default() -> (s: Self)
        ensures
            s.recent@.len() == 0,
            s.show_status_bar,
            s.hex == HexViewOptions::defaults(),
            s.language is None,
            s.check_for_updates,
            s.last_update_check is None,
    {
        Settings {
            recent: Vec::new(),
            show_status_bar: true,
            hex: HexViewOptions::default(),
            language: None,
            check_for_updates: true,
            last_update_check: None,
        }
    }
}

/// Whether two strings hold the same characters.
fn same_path(a: &String, b: &String) -> (r: bool)
    ensures
        r == (a@ == b@),
{
    a.eq(b)
}

/// Whether `v` holds a path equal to `p`.
fn contains_path(v: &Vec<String>, p: &String) -> (r: bool)
    ensures
        r == paths_view(v@).contains(p@),
{
    let mut i: usize = 0;
    while i < v.len()
        invariant
            i <= v.len(),
            forall|k: int| 0 <= k < i ==> v@[k]@ != p@,
        decreases v.len() - i,
    {
        if same_path(&v[i], p) {
            assert(paths_view(v@)[i as int] == p@);
            return true;
        }
        i = i + 1;
    }
    proof {
        if paths_view(v@).contains(p@) {
            let k = choose|k: int| 0 <= k < paths_view(v@).len() && paths_view(v@)[k] == p@;
            assert(v@[k]@ == p@);
        }
    }
    false
}

/// The first `MAX_RECENT` entries of `v` (all of it when shorter).
fn capped(v: Vec<String>) -> (r: Vec<String>)
    ensures
        paths_view(r@) == cap_recent(paths_view(v@)),
{
    let mut v = v;
    let ghost before = v@;
    v.truncate(MAX_RECENT);
    proof {
        if before.len() > MAX_RECENT {
            assert(paths_view(v@) =~= paths_view(before).take(MAX_RECENT as int));
        }
    }
    v
}

impl Settings {
    /// Record `path` as the most recently opened image: move it (or insert
    /// it) to the front, drop duplicates of it, and cap the list at
    /// [`MAX_RECENT`].
    pub fn push_recent(&mut self, path: &str)
        ensures
            paths_view(final(self).recent@) == pushed_recent(paths_view(old(self).recent@), path@),
            final(self).show_status_bar == old(self).show_status_bar,
            final(self).hex == old(self).hex,
            final(self).language == old(self).language,
            final(self).check_for_updates == old(self).check_for_updates,
            final(self).last_update_check == old(self).last_update_check,
    {
        let p: String = path.to_owned();
        let mut rest: Vec<String> = Vec::new();
        let mut i: usize = 0;
        let ghost old_view = paths_view(self.recent@);
        while i < self.recent.len()
            invariant
                i <= self.recent.len(),
                old_view == paths_view(self.recent@),
                p@ == path@,
                paths_view(rest@) == without(old_view.take(i as int), p@),
            decreases self.recent.len() - i,
        {
            proof {
                assert(old_view.take(i + 1).drop_last() =~= old_view.take(i as int));
                assert(old_view.take(i + 1).last() == self.recent@[i as int]@);
            }
            if !same_path(&self.recent[i], &p) {
                let q = self.recent[i].clone();
                rest.push(q);
                proof {
                    assert(paths_view(rest@) =~= without(old_view.take(i as int), p@).push(q@));
                }
            }
            i = i + 1;
        }
        proof {
            assert(old_view.take(i as int) =~= old_view);
        }
        let mut out: Vec<String> = Vec::new();
        out.push(p);
        let mut j: usize = 0;
        while j < rest.len()
            invariant
                j <= rest.len(),
                out@.len() == j + 1,
                paths_view(out@) == seq![path@] + paths_view(rest@).take(j as int),
            decreases rest.len() - j,
        {
            let q = rest[j].clone();
            assert(q@ == paths_view(rest@)[j as int]);
            let ghost before = out@;
            out.push(q);
            j = j + 1;
            proof {
                assert(paths_view(out@) =~= paths_view(before).push(q@));
                assert(paths_view(rest@).take(j as int) =~= paths_view(rest@).take(j - 1).push(q@));
                assert(paths_view(out@) =~= seq![path@] + paths_view(rest@).take(j as int));
            }
        }
        proof {
            assert(paths_view(rest@).take(j as int) =~= paths_view(rest@));
        }
        self.recent = capped(out);
    }

    /// Forget `path`, which has gone missing since it was opened: every
    /// entry equal to it leaves the recent list, the others keep their order.
    pub fn forget_recent(&mut self, path: &str)
        ensures
            paths_view(final(self).recent@) == without(paths_view(old(self).recent@), path@),
            final(self).show_status_bar == old(self).show_status_bar,
            final(self).hex == old(self).hex,
            final(self).language == old(self).language,
            final(self).check_for_updates == old(self).check_for_updates,
            final(self).last_update_check == old(self).last_update_check,
    {
        let p: String = path.to_owned();
        let mut rest: Vec<String> = Vec::new();
        let mut i: usize = 0;
        let ghost old_view = paths_view(self.recent@);
        while i < self.recent.len()
            invariant
                i <= self.recent.len(),
                old_view == paths_view(self.recent@),
                p@ == path@,
                paths_view(rest@) == without(old_view.take(i as int), p@),
            decreases self.recent.len() - i,
        {
            proof {
                assert(old_view.take(i + 1).drop_last() =~= old_view.take(i as int));
                assert(old_view.take(i + 1).last() == self.recent@[i as int]@);
            }
            if !same_path(&self.recent[i], &p) {
                let q = self.recent[i].clone();
                rest.push(q);
                proof {
                    assert(paths_view(rest@) =~= without(old_view.take(i as int), p@).push(q@));
                }
            }
            i = i + 1;
        }
        proof {
            assert(old_view.take(i as int) =~= old_view);
        }
        self.recent = rest;
    }

    /// Forget all recent files.
    pub fn clear_recent(&mut self)
        ensures
            final(self).recent@.len() == 0,
            final(self).show_status_bar == old(self).show_status_bar,
            final(self).hex == old(self).hex,
            final(self).language == old(self).language,
            final(self).check_for_updates == old(self).check_for_updates,
            final(self).last_update_check == old(self).last_update_check,
    {
        self.recent.clear();
    }

    /// Union another instance's recent list into this one: own entries keep
    /// their order in front, paths not already present are appended in
    /// `other` order, and the result is capped at [`MAX_RECENT`].
    pub fn merge_recent(&mut self, other: &[String])
        ensures
            paths_view(final(self).recent@) == merged_recent(paths_view(old(self).recent@), paths_view(other@)),
            final(self).show_status_bar == old(self).show_status_bar,
            final(self).hex == old(self).hex,
            final(self).language == old(self).language,
            final(self).check_for_updates == old(self).check_for_updates,
            final(self).last_update_check == old(self).last_update_check,
    {
        let ghost own = paths_view(self.recent@);
        let ghost oth = paths_view(other@);
        let mut all: Vec<String> = self.recent.clone();
        proof {
            assert(oth.take(0) =~= Seq::<Seq<char>>::empty());
        }
        let mut i: usize = 0;
        while i < other.len()
            invariant
                i <= other.len(),
                oth == paths_view(other@),
                paths_view(all@) == union_append(own, oth.take(i as int)),
            decreases other.len() - i,
        {
            proof {
                assert(oth.take(i + 1).drop_last() =~= oth.take(i as int));
                assert(oth.take(i + 1).last() == other@[i as int]@);
            }
            if !contains_path(&all, &other[i]) {
                let q = other[i].clone();
                all.push(q);
                proof {
                    assert(paths_view(all@) =~= union_append(own, oth.take(i as int)).push(q@));
                }
            }
            i = i + 1;
        }
        proof {
            assert(oth.take(i as int) =~= oth);
        }
        self.recent = capped(all);
    }
}

/// How the hex view draws each row. Each field maps to a View-menu item.
#[derive(Debug, Clone, Copy, PartialEq, Eq, Structural)]
pub struct HexViewOptions {
    /// Show the address/offset gutter ("Line numbers").
    pub show_line_numbers: bool,
    /// Address gutter base: `true` = hexadecimal, `false` = decimal.
    pub line_number_hex: bool,
    /// Show the hexadecimal byte columns.
    pub show_hex: bool,
    /// Show the plain-text (ASCII) gutter.
    pub show_ascii: bool,
    /// Show the column-offset header ruler.
    pub show_columns: bool,
    /// Bytes shown per row in the file hex view (one of [`ROW_SIZES`]).
    pub bytes_per_row: usize,
    /// How hex bytes are clustered: ungrouped (no spaces) or N contiguous
    /// bytes per group, separated by a single space.
    pub grouping: ByteGrouping,
    /// Render `0x00` bytes as blanks in the hex (and ASCII) columns.
    pub hide_null_bytes: bool,
}

impl HexViewOptions {
    /// The default options: every region shown, hexadecimal addresses, 16
    /// bytes per row, one byte per group, null bytes shown.
    pub open spec fn defaults() -> HexViewOptions {
        HexViewOptions {
            show_line_numbers: true,
            line_number_hex: true,
            show_hex: true,
            show_ascii: true,
            show_columns: true,
            bytes_per_row: 16,
            grouping: ByteGrouping::Of(1),
            hide_null_bytes: false,
        }
    }
}

impl Default for HexViewOptions {
    fn default() -> (o: Self)
        ensures
            o == HexViewOptions::defaults(),
    {
        HexViewOptions {
            show_line_numbers: true,
            line_number_hex: true,
            show_hex: true,
            show_ascii: true,
            show_columns: true,
            bytes_per_row: 16,
            // One byte per group = the classic space-separated hex dump.
            grouping: ByteGrouping::Of(1),
            hide_null_bytes: false,
        }
    }
}

/// Byte-grouping for the hex columns: either ungrouped (bytes printed with no
/// spaces) or `N` contiguous bytes per group with a single space between
/// groups. `Of(1)` is the classic one-space-per-byte dump.
#[derive(Debug, Clone, Copy, PartialEq, Eq, Structural)]
pub enum ByteGrouping {
    Ungrouped,
    Of(usize),
}

/// Group size as a count of bytes (at least 1), or `None` when ungrouped.
pub open spec fn grouping_size(g: ByteGrouping) -> Option<usize> {
    match g {
        ByteGrouping::Ungrouped => None,
        ByteGrouping::Of(n) => Some(if n >= 1 { n } else { 1 }),
    }
}

impl ByteGrouping {
    /// The selectable grouping sizes offered by the View menu.
    pub const SIZES: [usize; 7] = [1, 2, 3, 4, 8, 16, 32];

    /// Group size as a count of bytes, or `None` when ungrouped.
    pub fn size(self) -> (r: Option<usize>)
        ensures
            r == grouping_size(self),
    {
        match self {
            ByteGrouping::Ungrouped => None,
            ByteGrouping::Of(n) => Some(if n >= 1 { n } else { 1 }),
        }
    }
}

} // verus!
