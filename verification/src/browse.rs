//! The rows the file tree shows for the open document, with the file filter
//! applied.
use vstd::prelude::*;

use crate::entry::{height_list, walk_list, DirEntry};
use crate::settings::paths_view;
use crate::tree_filter::{add_new, collect_matches, glob_match, glob_matches, match_paths};
use crate::tree_nav::{flatten_visible, rows_view, visible_rows, RowView, VisibleRow};
use crate::text::chars_of;

verus! {

/// The path of the disk root's synthetic row.
pub const ROOT_PATH: &'static str = "";

/// The paths the filter `filter` keeps in the disk tree `tree`: every match
/// and the folders on the way to it; `None` when no filter is typed.
pub open spec fn disk_keep(tree: Seq<DirEntry>, filter: Seq<char>) -> Option<Seq<Seq<char>>> {
    if filter.len() == 0 {
        None
    } else {
        Some(add_new(Seq::empty(), match_paths(walk_list(tree), filter)))
    }
}

/// The rows of a disk's tree under the filter `filter`: none when the filter
/// keeps nothing; otherwise the visible rows, below a synthetic `/` root row
/// unless the image is partitioned (its volume nodes are the roots then).
pub open spec fn disk_rows_of(
    tree: Seq<DirEntry>,
    partitioned: bool,
    collapsed: Seq<Seq<char>>,
    filter: Seq<char>,
) -> Seq<RowView> {
    let keep = disk_keep(tree, filter);
    if keep matches Some(k) && k.len() == 0 {
        Seq::empty()
    } else {
        visible_rows(tree, collapsed, if partitioned { None } else { Some(Seq::<char>::empty()) }, keep)
    }
}

/// The rows the file tree shows for a disk.
pub fn disk_rows(tree: &Vec<DirEntry>, partitioned: bool, collapsed: &[String], filter: &str) -> (r: Vec<VisibleRow>)
    requires
        height_list(tree@) + 2 <= usize::MAX,
    ensures
        rows_view(r@) == disk_rows_of(tree@, partitioned, paths_view(collapsed@), filter@),
{
    let root: Option<&str> = if partitioned { None } else { Some("") };
    let ghost root_view: Option<Seq<char>> = match root {
        Some(p) => Some(p@),
        None => None,
    };
    proof {
        reveal_strlit("");
        assert(root_view == (if partitioned { None } else { Some(Seq::<char>::empty()) }));
    }
    if chars_of(filter).len() == 0 {
        return flatten_visible(tree, collapsed, root, None);
    }
    let keep = collect_matches(tree, filter);
    proof {
        assert(keep@.map_values(|s: String| s@) =~= paths_view(keep@));
    }
    if keep.len() == 0 {
        let r: Vec<VisibleRow> = Vec::new();
        proof {
            assert(rows_view(r@) =~= Seq::<RowView>::empty());
        }
        return r;
    }
    let ks = keep.as_slice();
    proof {
        assert(ks@ == keep@);
    }
    flatten_visible(tree, collapsed, root, Some(ks))
}

/// The row of a tape file.
pub open spec fn tape_row(key: Seq<char>) -> RowView {
    RowView { path: key, is_dir: false, depth: 0, parent: None, collapsible: false }
}

/// The rows of a tape's file list under the filter `filter`: one flat row
/// per file whose key matches it (every file when no filter is typed).
pub open spec fn tape_rows_of(keys: Seq<Seq<char>>, filter: Seq<char>) -> Seq<RowView>
    decreases keys.len(),
{
    if keys.len() == 0 {
        Seq::empty()
    } else {
        tape_rows_of(keys.drop_last(), filter) + if filter.len() == 0 || glob_matches(filter, keys.last()) {
            seq![tape_row(keys.last())]
        } else {
            Seq::empty()
        }
    }
}

/// The rows the file tree shows for a tape.
pub fn tape_rows(keys: &[String], filter: &str) -> (r: Vec<VisibleRow>)
    ensures
        rows_view(r@) == tape_rows_of(paths_view(keys@), filter@),
{
    let no_filter = chars_of(filter).len() == 0;
    let ghost kv = paths_view(keys@);
    let mut r: Vec<VisibleRow> = Vec::new();
    let mut i: usize = 0;
    proof {
        assert(kv.take(0) =~= Seq::<Seq<char>>::empty());
        assert(rows_view(r@) =~= Seq::<RowView>::empty());
    }
    while i < keys.len()
        invariant
            i <= keys@.len(),
            kv == paths_view(keys@),
            no_filter == (filter@.len() == 0),
            rows_view(r@) == tape_rows_of(kv.take(i as int), filter@),
        decreases keys@.len() - i,
    {
        let ghost before = rows_view(r@);
        proof {
            assert(kv.take(i + 1).drop_last() =~= kv.take(i as int));
            assert(kv.take(i + 1).last() == keys@[i as int]@);
        }
        if no_filter || glob_match(filter, keys[i].as_str()) {
            r.push(VisibleRow { path: keys[i].clone(), is_dir: false, depth: 0, parent: None, collapsible: false });
            proof {
                assert(rows_view(r@) =~= before + seq![tape_row(keys@[i as int]@)]);
            }
        } else {
            proof {
                assert(before + Seq::<RowView>::empty() =~= before);
            }
        }
        i = i + 1;
    }
    proof {
        assert(kv.take(i as int) =~= kv);
    }
    r
}

} // verus!
