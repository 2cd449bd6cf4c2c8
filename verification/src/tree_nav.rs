//! Keyboard navigation for the file tree: flattening the tree into the rows
//! currently on screen (respecting collapsed directories and an active
//! filter) and resolving an arrow key into a cursor move or a
//! collapse/expand.
use vstd::prelude::*;

use crate::entry::{height, height_list, DirEntry};
use crate::settings::paths_view;

verus! {

/// One row as drawn in the tree, in top-to-bottom visible order. A directory
/// precedes its children (pre-order), matching the on-screen layout.
#[derive(Debug, Clone, PartialEq, Eq)]
pub struct VisibleRow {
    pub path: String,
    pub is_dir: bool,
    /// Nesting level (0 at the root), used for indentation and to find the
    /// first child of an expanded directory.
    pub depth: usize,
    /// The containing directory's path, or `None` for a top-level row.
    pub parent: Option<String>,
    /// Whether the row can be collapsed/expanded. The synthetic disk root is
    /// not collapsible.
    pub collapsible: bool,
}

/// A row as plain values.
pub ghost struct RowView {
    pub path: Seq<char>,
    pub is_dir: bool,
    pub depth: int,
    pub parent: Option<Seq<char>>,
    pub collapsible: bool,
}

/// The plain values of `r`.
pub open spec fn row_view(r: VisibleRow) -> RowView {
    RowView {
        path: r.path@,
        is_dir: r.is_dir,
        depth: r.depth as int,
        parent: match r.parent {
            Some(p) => Some(p@),
            None => None,
        },
        collapsible: r.collapsible,
    }
}

/// The plain values of every row.
pub open spec fn rows_view(v: Seq<VisibleRow>) -> Seq<RowView> {
    v.map_values(|r: VisibleRow| row_view(r))
}

/// An arrow key pressed while the tree has focus.
#[derive(Debug, Clone, Copy, PartialEq, Eq, Structural)]
pub enum NavKey {
    Up,
    Down,
    Left,
    Right,
}

/// What an arrow key resolves to.
#[derive(Debug, Clone, PartialEq, Eq)]
pub enum TreeNav {
    /// Move the cursor to this row's path; if it is a file the caller also
    /// loads it.
    MoveTo(String),
    /// Collapse (`true`) or expand (`false`) this directory; cursor unchanged.
    SetCollapsed(String, bool),
    /// Nothing to do (an edge of the list, or Right on a file).
    Nothing,
}

/// What an arrow key resolves to, as plain values.
pub ghost enum NavView {
    MoveTo(Seq<char>),
    SetCollapsed(Seq<char>, bool),
    Nothing,
}

/// The plain values of `n`.
pub open spec fn nav_view(n: TreeNav) -> NavView {
    match n {
        TreeNav::MoveTo(p) => NavView::MoveTo(p@),
        TreeNav::SetCollapsed(p, c) => NavView::SetCollapsed(p@, c),
        TreeNav::Nothing => NavView::Nothing,
    }
}

/// Whether an entry at `path` is shown under the filter `keep` (no filter
/// shows everything).
pub open spec fn kept(keep: Option<Seq<Seq<char>>>, path: Seq<char>) -> bool {
    match keep {
        Some(k) => k.contains(path),
        None => true,
    }
}

/// The rows for entry `e` at `depth` below `parent`: nothing when the filter
/// hides it, else its own row followed, for a directory that is expanded or
/// while a filter is active, by the rows of its children one level deeper.
pub open spec fn entry_rows(
    e: DirEntry,
    collapsed: Seq<Seq<char>>,
    depth: int,
    parent: Option<Seq<char>>,
    keep: Option<Seq<Seq<char>>>,
) -> Seq<RowView>
    decreases e, 1int,
{
    if !kept(keep, e.path@) {
        Seq::empty()
    } else {
        let row = RowView { path: e.path@, is_dir: e.is_dir, depth, parent, collapsible: true };
        if e.is_dir && (keep is Some || !collapsed.contains(e.path@)) {
            seq![row] + list_rows(e.children@, collapsed, depth + 1, Some(e.path@), keep)
        } else {
            seq![row]
        }
    }
}

/// The rows of `es`, one entry after another.
pub open spec fn list_rows(
    es: Seq<DirEntry>,
    collapsed: Seq<Seq<char>>,
    depth: int,
    parent: Option<Seq<char>>,
    keep: Option<Seq<Seq<char>>>,
) -> Seq<RowView>
    decreases es, 0int,
{
    if es.len() == 0 {
        Seq::empty()
    } else {
        list_rows(es.subrange(0, es.len() - 1), collapsed, depth, parent, keep) + entry_rows(
            es[es.len() - 1],
            collapsed,
            depth,
            parent,
            keep,
        )
    }
}

/// The visible rows: with a synthetic root, its row (a directory at depth 0
/// with no parent, not collapsible) and then the entries as its children at
/// depth 1, shown whatever the collapsed set says of the root; without one,
/// the entries flat at depth 0.
pub open spec fn visible_rows(
    es: Seq<DirEntry>,
    collapsed: Seq<Seq<char>>,
    root: Option<Seq<char>>,
    keep: Option<Seq<Seq<char>>>,
) -> Seq<RowView> {
    match root {
        Some(rp) => seq![RowView { path: rp, is_dir: true, depth: 0, parent: None, collapsible: false }]
            + list_rows(es, collapsed, 1, Some(rp), keep),
        None => list_rows(es, collapsed, 0, None, keep),
    }
}

/// An entry's subtree is no deeper than the deepest subtree of the list that
/// holds it.
proof fn lemma_height_member(es: Seq<DirEntry>, i: int)
    requires
        0 <= i < es.len(),
    ensures
        height(es[i]) <= height_list(es),
    decreases es.len(),
{
    let d = es.subrange(0, es.len() - 1);
    if i < es.len() - 1 {
        lemma_height_member(d, i);
        assert(d[i] == es[i]);
    }
}

/// Whether `v` holds a path equal to `p`.
fn contains_path(v: &[String], p: &String) -> (r: bool)
    ensures
        r == paths_view(v@).contains(p@),
{
    let mut i: usize = 0;
    while i < v.len()
        invariant
            i <= v.len(),
            forall|k: int| 0 <= k < i ==> v@[k]@ != p@,
        decreases v.len() - i,
    {
        if v[i].eq(p) {
            assert(paths_view(v@)[i as int] == p@);
            return true;
        }
        i = i + 1;
    }
    proof {
        if paths_view(v@).contains(p@) {
            let k = choose|k: int| 0 <= k < paths_view(v@).len() && paths_view(v@)[k] == p@;
            assert(v@[k]@ == p@);
        }
    }
    false
}

/// The filter as plain values.
pub open spec fn keep_view(keep: Option<&[String]>) -> Option<Seq<Seq<char>>> {
    match keep {
        Some(k) => Some(paths_view(k@)),
        None => None,
    }
}

/// The plain values of an optional path.
pub open spec fn opt_view(p: Option<String>) -> Option<Seq<char>> {
    match p {
        Some(s) => Some(s@),
        None => None,
    }
}

/// Flatten `entries` into the rows currently visible, skipping the children
/// of any directory whose path is in `collapsed`.
///
/// When `root` is `Some(path)`, a synthetic root row (e.g. the disk's `/`) is
/// placed first and `entries` become its children (depth 1, parent = `path`);
/// the root is always expanded. When `root` is `None` the entries render flat
/// at depth 0.
///
/// When `keep` is `Some(set)` a filter is active: only entries whose path is
/// in the set are shown, and directories are descended regardless of
/// `collapsed`. The synthetic root row is always shown.
pub fn flatten_visible(
    entries: &Vec<DirEntry>,
    collapsed: &[String],
    root: Option<&str>,
    keep: Option<&[String]>,
) -> (rows: Vec<VisibleRow>)
    requires
        height_list(entries@) + 2 <= usize::MAX,
    ensures
        rows_view(rows@) == visible_rows(
            entries@,
            paths_view(collapsed@),
            match root {
                Some(r) => Some(r@),
                None => None,
            },
            keep_view(keep),
        ),
{
    let mut rows: Vec<VisibleRow> = Vec::new();
    match root {
        Some(root_path) => {
            let rp = root_path.to_owned();
            rows.push(
                VisibleRow {
                    path: rp.clone(),
                    is_dir: true,
                    depth: 0,
                    parent: None,
                    collapsible: false,
                },
            );
            let ghost first = rows_view(rows@);
            push_rows(entries, collapsed, 1, Some(rp), keep, &mut rows);
            proof {
                assert(first =~= seq![RowView { path: root_path@, is_dir: true, depth: 0, parent: None, collapsible: false }]);
            }
        },
        None => {
            push_rows(entries, collapsed, 0, None, keep, &mut rows);
            proof {
                assert(rows_view(Seq::<VisibleRow>::empty()) =~= Seq::<RowView>::empty());
                assert(Seq::<RowView>::empty() + list_rows(entries@, paths_view(collapsed@), 0, None, keep_view(keep)) =~= list_rows(entries@, paths_view(collapsed@), 0, None, keep_view(keep)));
            }
        },
    }
    rows
}

/// Appends the rows of `entries` at `depth` below `parent` to `rows`.
pub fn push_rows(
    entries: &Vec<DirEntry>,
    collapsed: &[String],
    depth: usize,
    parent: Option<String>,
    keep: Option<&[String]>,
    rows: &mut Vec<VisibleRow>,
)
    requires
        entries@.len() == 0 || depth + height_list(entries@) + 1 <= usize::MAX,
    ensures
        rows_view(final(rows)@) == rows_view(old(rows)@) + list_rows(
            entries@,
            paths_view(collapsed@),
            depth as int,
            opt_view(parent),
            keep_view(keep),
        ),
    decreases entries@, 0int,
{
    let ghost start = rows_view(rows@);
    let ghost cv = paths_view(collapsed@);
    let ghost kv = keep_view(keep);
    let ghost pv = opt_view(parent);
    let mut i: usize = 0;
    proof {
        assert(entries@.subrange(0, 0) =~= Seq::<DirEntry>::empty());
        assert(start + list_rows(entries@.subrange(0, 0), cv, depth as int, pv, kv) =~= start);
    }
    while i < entries.len()
        invariant
            i <= entries.len(),
            entries@.len() == 0 || depth + height_list(entries@) + 1 <= usize::MAX,
            cv == paths_view(collapsed@),
            kv == keep_view(keep),
            pv == opt_view(parent),
            rows_view(rows@) == start + list_rows(entries@.subrange(0, i as int), cv, depth as int, pv, kv),
        decreases entries.len() - i,
    {
        proof {
            let pre = entries@.subrange(0, i + 1);
            assert(pre.subrange(0, i as int) =~= entries@.subrange(0, i as int));
            assert(pre[i as int] == entries@[i as int]);
            lemma_height_member(entries@, i as int);
            assert(decreases_to!(entries@ => entries@[i as int]));
        }
        let p = match &parent {
            Some(s) => Some(s.clone()),
            None => None,
        };
        push_entry_rows(&entries[i], collapsed, depth, p, keep, rows);
        i = i + 1;
        proof {
            assert(rows_view(rows@) =~= start + list_rows(entries@.subrange(0, i as int), cv, depth as int, pv, kv));
        }
    }
    proof {
        assert(entries@.subrange(0, i as int) =~= entries@);
    }
}

/// Appends the rows of `entry` at `depth` below `parent` to `rows`.
fn push_entry_rows(
    entry: &DirEntry,
    collapsed: &[String],
    depth: usize,
    parent: Option<String>,
    keep: Option<&[String]>,
    rows: &mut Vec<VisibleRow>,
)
    requires
        depth + height(*entry) + 1 <= usize::MAX,
    ensures
        rows_view(final(rows)@) == rows_view(old(rows)@) + entry_rows(
            *entry,
            paths_view(collapsed@),
            depth as int,
            opt_view(parent),
            keep_view(keep),
        ),
    decreases entry, 1int,
{
    let ghost start = rows_view(rows@);
    let ghost cv = paths_view(collapsed@);
    let ghost kv = keep_view(keep);
    let ghost pv = opt_view(parent);
    let shown = match keep {
        Some(k) => contains_path(k, &entry.path),
        None => true,
    };
    if !shown {
        proof {
            assert(start + Seq::<RowView>::empty() =~= start);
        }
        return;
    }
    let ghost before = rows@;
    rows.push(
        VisibleRow {
            path: entry.path.clone(),
            is_dir: entry.is_dir,
            depth,
            parent,
            collapsible: true,
        },
    );
    let ghost row = RowView { path: entry.path@, is_dir: entry.is_dir, depth: depth as int, parent: pv, collapsible: true };
    proof {
        assert(rows_view(rows@) =~= rows_view(before).push(row));
    }
    // While filtering, descend every kept directory so matches inside a
    // collapsed folder are still revealed.
    let descend = keep.is_some() || !contains_path(collapsed, &entry.path);
    if entry.is_dir && descend {
        proof {
            assert(decreases_to!(*entry => entry.children));
            assert(decreases_to!(entry.children => entry.children@));
            if entry.children@.len() > 0 {
                assert(height(*entry) == height_list(entry.children@) + 1);
            } else {
                assert(height_list(entry.children@) == 0);
            }
        }
        let ghost mid = rows_view(rows@);
        push_rows(&entry.children, collapsed, depth + 1, Some(entry.path.clone()), keep, rows);
        proof {
            assert(rows_view(rows@) =~= start + (seq![row] + list_rows(entry.children@, cv, depth + 1, Some(entry.path@), kv)));
        }
    } else {
        proof {
            assert(rows_view(rows@) =~= start + seq![row]);
        }
    }
}

/// The index of the first row whose path is `p`.
pub open spec fn row_index(rows: Seq<RowView>, p: Seq<char>) -> Option<int>
    decreases rows.len(),
{
    if rows.len() == 0 {
        None
    } else {
        match row_index(rows.drop_last(), p) {
            Some(i) => Some(i),
            None => if rows.last().path == p { Some(rows.len() - 1) } else { None },
        }
    }
}

/// What `key` does to the cursor `cursor` over the visible `rows`.
///
/// No cursor, or one on a row that is no longer visible, drops onto the first
/// row. Down/Up step to the next/previous row and stop at the edges. Right
/// expands a collapsed directory, steps into an expanded one that shows a
/// child, and does nothing on a file. Left collapses an expanded directory,
/// else moves to the parent, else does nothing.
pub open spec fn nav_for(
    rows: Seq<RowView>,
    cursor: Option<Seq<char>>,
    collapsed: Seq<Seq<char>>,
    key: NavKey,
) -> NavView {
    if rows.len() == 0 {
        NavView::Nothing
    } else {
        let found = match cursor {
            Some(c) => row_index(rows, c),
            None => None,
        };
        match found {
            None => NavView::MoveTo(rows[0].path),
            Some(idx) => {
                let row = rows[idx];
                match key {
                    NavKey::Down => if idx + 1 < rows.len() {
                        NavView::MoveTo(rows[idx + 1].path)
                    } else {
                        NavView::Nothing
                    },
                    NavKey::Up => if idx > 0 {
                        NavView::MoveTo(rows[idx - 1].path)
                    } else {
                        NavView::Nothing
                    },
                    NavKey::Right => if !row.is_dir {
                        NavView::Nothing
                    } else if row.collapsible && collapsed.contains(row.path) {
                        NavView::SetCollapsed(row.path, false)
                    } else if idx + 1 < rows.len() && rows[idx + 1].depth > row.depth {
                        NavView::MoveTo(rows[idx + 1].path)
                    } else {
                        NavView::Nothing
                    },
                    NavKey::Left => if row.is_dir && row.collapsible && !collapsed.contains(row.path) {
                        NavView::SetCollapsed(row.path, true)
                    } else {
                        match row.parent {
                            Some(p) => NavView::MoveTo(p),
                            None => NavView::Nothing,
                        }
                    },
                }
            },
        }
    }
}

/// A found index really holds the path, and no earlier row does.
pub(crate) proof fn lemma_row_index(rows: Seq<RowView>, p: Seq<char>)
    ensures
        match row_index(rows, p) {
            Some(i) => 0 <= i < rows.len() && rows[i].path == p && forall|k: int| 0 <= k < i ==> #[trigger] rows[k].path != p,
            None => forall|k: int| 0 <= k < rows.len() ==> #[trigger] rows[k].path != p,
        },
    decreases rows.len(),
{
    if rows.len() > 0 {
        lemma_row_index(rows.drop_last(), p);
        assert forall|k: int| 0 <= k < rows.len() - 1 implies #[trigger] rows[k] == rows.drop_last()[k] by {}
    }
}

/// The index of the first row whose path is `c`.
fn find_row(rows: &[VisibleRow], c: &str) -> (r: Option<usize>)
    ensures
        match r {
            Some(i) => row_index(rows_view(rows@), c@) == Some(i as int),
            None => row_index(rows_view(rows@), c@) is None,
        },
{
    let ghost rv = rows_view(rows@);
    let cs = c.to_owned();
    let mut i: usize = 0;
    proof {
        lemma_row_index(rv, c@);
    }
    while i < rows.len()
        invariant
            i <= rows.len(),
            rv == rows_view(rows@),
            cs@ == c@,
            forall|k: int| 0 <= k < i ==> #[trigger] rv[k].path != c@,
        decreases rows.len() - i,
    {
        assert(rv[i as int] == row_view(rows@[i as int]));
        if rows[i].path.eq(&cs) {
            proof {
                assert(rv[i as int].path == c@);
                lemma_row_index(rv, c@);
                match row_index(rv, c@) {
                    Some(j) => {
                        assert(j >= i);
                        assert(j <= i);
                    },
                    None => {},
                }
            }
            return Some(i);
        }
        i = i + 1;
    }
    proof {
        lemma_row_index(rv, c@);
    }
    None
}

/// Resolve `key` against the visible `rows` and the current `cursor` path.
///
/// `collapsed` tells an expanded directory (Left collapses it, Right steps
/// into it) from a collapsed one (Right expands it, Left leaves it for the
/// parent).
pub fn navigate(rows: &[VisibleRow], cursor: Option<&str>, collapsed: &[String], key: NavKey) -> (r: TreeNav)
    ensures
        nav_view(r) == nav_for(
            rows_view(rows@),
            match cursor {
                Some(c) => Some(c@),
                None => None,
            },
            paths_view(collapsed@),
            key,
        ),
{
    let ghost rv = rows_view(rows@);
    if rows.len() == 0 {
        return TreeNav::Nothing;
    }
    assert(rv[0] == row_view(rows@[0]));
    let found: Option<usize> = match cursor {
        Some(c) => find_row(rows, c),
        None => None,
    };
    proof {
        match cursor {
            Some(c) => {
                lemma_row_index(rv, c@);
            },
            None => {},
        }
    }
    let idx = match found {
        Some(idx) => idx,
        None => return TreeNav::MoveTo(rows[0].path.clone()),
    };
    let row = &rows[idx];
    assert(rv[idx as int] == row_view(*row));
    if idx + 1 < rows.len() {
        assert(rv[idx + 1] == row_view(rows@[idx + 1]));
    }
    if idx > 0 {
        assert(rv[idx - 1] == row_view(rows@[idx - 1]));
    }
    match key {
        NavKey::Down => {
            if idx + 1 < rows.len() {
                TreeNav::MoveTo(rows[idx + 1].path.clone())
            } else {
                TreeNav::Nothing
            }
        },
        NavKey::Up => {
            if idx > 0 {
                TreeNav::MoveTo(rows[idx - 1].path.clone())
            } else {
                TreeNav::Nothing
            }
        },
        NavKey::Right => {
            if !row.is_dir {
                return TreeNav::Nothing;
            }
            if row.collapsible && contains_path(collapsed, &row.path) {
                TreeNav::SetCollapsed(row.path.clone(), false)
            } else if idx + 1 < rows.len() && rows[idx + 1].depth > row.depth {
                TreeNav::MoveTo(rows[idx + 1].path.clone())
            } else {
                TreeNav::Nothing
            }
        },
        NavKey::Left => {
            if row.is_dir && row.collapsible && !contains_path(collapsed, &row.path) {
                TreeNav::SetCollapsed(row.path.clone(), true)
            } else {
                match &row.parent {
                    Some(parent) => TreeNav::MoveTo(parent.clone()),
                    None => TreeNav::Nothing,
                }
            }
        },
    }
}

/// With distinct paths, Up undoes Down: stepping down from any row but the
/// last and then up again lands back on it.
pub proof fn lemma_up_undoes_down(rows: Seq<RowView>, i: int, collapsed: Seq<Seq<char>>)
    requires
        0 <= i,
        i + 1 < rows.len(),
        forall|a: int, b: int| 0 <= a < b < rows.len() ==> rows[a].path != rows[b].path,
    ensures
        nav_for(rows, Some(rows[i].path), collapsed, NavKey::Down) == NavView::MoveTo(rows[i + 1].path),
        nav_for(rows, Some(rows[i + 1].path), collapsed, NavKey::Up) == NavView::MoveTo(rows[i].path),
{
    lemma_row_index(rows, rows[i].path);
    lemma_row_index(rows, rows[i + 1].path);
}

/// Any key drops a missing or stale cursor onto the first row, and every
/// move lands on a visible row or on the current row's parent.
pub proof fn lemma_moves_stay_in_view(
    rows: Seq<RowView>,
    cursor: Option<Seq<char>>,
    collapsed: Seq<Seq<char>>,
    key: NavKey,
)
    ensures
        nav_for(rows, cursor, collapsed, key) matches NavView::MoveTo(p) ==> (exists|k: int|
            0 <= k < rows.len() && (#[trigger] rows[k].path == p || rows[k].parent == Some(p))),
{
    if let Some(c) = cursor {
        lemma_row_index(rows, c);
    }
    if rows.len() > 0 {
        let found = match cursor {
            Some(c) => row_index(rows, c),
            None => None,
        };
        match found {
            None => {
                assert(rows[0].path == rows[0].path);
            },
            Some(idx) => {
                assert(rows[idx].path == rows[idx].path);
                if idx + 1 < rows.len() {
                    assert(rows[idx + 1].path == rows[idx + 1].path);
                }
                if idx > 0 {
                    assert(rows[idx - 1].path == rows[idx - 1].path);
                }
            },
        }
    }
}

} // verus!
