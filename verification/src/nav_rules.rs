//! What the arrow keys do to the row under the keyboard cursor, stated over
//! that row's own facts.

use vstd::prelude::*;

use crate::tree_nav::{lemma_row_index, nav_for, NavKey, NavView, RowView};

verus! {

/// Row `i` is where the cursor on its path lands: no earlier row has that
/// path.
pub open spec fn first_with_path(rows: Seq<RowView>, i: int) -> bool {
    0 <= i < rows.len() && forall|k: int| 0 <= k < i ==> #[trigger] rows[k].path != rows[i].path
}

proof fn lemma_cursor_lands(rows: Seq<RowView>, i: int)
    requires
        first_with_path(rows, i),
    ensures
        crate::tree_nav::row_index(rows, rows[i].path) == Some(i),
{
    lemma_row_index(rows, rows[i].path);
    match crate::tree_nav::row_index(rows, rows[i].path) {
        Some(j) => {
            if j > i {
                assert(rows[i].path != rows[i].path);
            }
        },
        None => {
            assert(rows[i].path != rows[i].path);
        },
    }
}

/// Left and Right on the cursor row, whatever its depth or parent:
/// - Left on an expanded directory that can collapse collapses it;
/// - Left anywhere else moves to the row's parent, or does nothing at the
///   top level;
/// - Right on a collapsed directory expands it, Right on a file does
///   nothing;
/// - Left then Right (after the collapse is recorded) expands the same
///   directory again.
pub proof fn lemma_left_right(rows: Seq<RowView>, i: int, collapsed: Seq<Seq<char>>)
    requires
        first_with_path(rows, i),
    ensures
        ({
            let r = rows[i];
            let at = Some(r.path);
            &&& (r.is_dir && r.collapsible && !collapsed.contains(r.path)) ==> nav_for(rows, at, collapsed, NavKey::Left)
                == NavView::SetCollapsed(r.path, true)
            &&& !(r.is_dir && r.collapsible && !collapsed.contains(r.path)) ==> nav_for(
                rows,
                at,
                collapsed,
                NavKey::Left,
            ) == match r.parent {
                Some(p) => NavView::MoveTo(p),
                None => NavView::Nothing,
            }
            &&& (r.is_dir && r.collapsible && collapsed.contains(r.path)) ==> nav_for(rows, at, collapsed, NavKey::Right)
                == NavView::SetCollapsed(r.path, false)
            &&& !r.is_dir ==> nav_for(rows, at, collapsed, NavKey::Right) == NavView::Nothing
            &&& (r.is_dir && r.collapsible && !collapsed.contains(r.path)) ==> nav_for(
                rows,
                at,
                collapsed.push(r.path),
                NavKey::Right,
            ) == NavView::SetCollapsed(r.path, false)
        }),
{
    lemma_cursor_lands(rows, i);
    let r = rows[i];
    assert(collapsed.push(r.path).contains(r.path)) by {
        assert(collapsed.push(r.path)[collapsed.len() as int] == r.path);
    }
}

/// Down then Up returns to the cursor row, and Up then Down too, when the
/// rows' paths are distinct.
pub proof fn lemma_down_up_round_trip(rows: Seq<RowView>, i: int, collapsed: Seq<Seq<char>>)
    requires
        0 <= i,
        i + 1 < rows.len(),
        forall|a: int, b: int| 0 <= a < b < rows.len() ==> rows[a].path != rows[b].path,
    ensures
        nav_for(rows, Some(rows[i].path), collapsed, NavKey::Down) matches NavView::MoveTo(p) && nav_for(
            rows,
            Some(p),
            collapsed,
            NavKey::Up,
        ) == NavView::MoveTo(rows[i].path),
        nav_for(rows, Some(rows[i + 1].path), collapsed, NavKey::Up) matches NavView::MoveTo(q) && nav_for(
            rows,
            Some(q),
            collapsed,
            NavKey::Down,
        ) == NavView::MoveTo(rows[i + 1].path),
{
    lemma_cursor_lands(rows, i);
    lemma_cursor_lands(rows, i + 1);
}

} // verus!
