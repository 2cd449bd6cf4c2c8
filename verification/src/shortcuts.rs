//! What the file tree's keyboard shortcuts do: F2/⌘R rename, Delete/⌘⌫
//! delete, ⌘A select all, ⌘E extract, ⌘F find, Escape and F1.

use vstd::prelude::*;

use crate::selection::{file_row_at, paths_for_row, selection_paths, texts, Selection};
use crate::text::{chars_eq, chars_of};
use crate::tree_nav::VisibleRow;

verus! {

/// A shortcut pressed while the file tree has the keyboard.
#[derive(Debug, Clone, Copy, PartialEq, Eq)]
pub enum TreeShortcut {
    Rename,
    Delete,
    SelectAll,
    Extract,
    Find,
    Escape,
    Help,
}

/// What a shortcut asks the application to do.
#[derive(Debug, Clone, PartialEq, Eq)]
pub enum TreeCommand {
    /// Open the rename dialog on this entry.
    Rename(String),
    /// Remove this directory (at once when empty, after a confirmation
    /// otherwise).
    RemoveDirectory(String),
    /// Ask to confirm deleting these files.
    ConfirmDelete(Vec<String>),
    /// Mark every visible file.
    SelectAllFiles,
    /// Extract these paths.
    Extract(Vec<String>),
    /// Put the keyboard focus in the filter box.
    FocusFilter,
    /// Empty the filter box.
    ClearFilter,
    /// Unmark every file.
    ClearSelection,
    /// Show the shortcut list.
    ShowShortcuts,
    /// The shortcut was taken but has nothing to act on.
    Ignore,
}

/// The shortcut that wins when several fire in one frame: the first of
/// rename, delete, select all, extract, find, escape, help.
pub fn first_shortcut(
    rename: bool,
    delete: bool,
    select_all: bool,
    extract: bool,
    find: bool,
    escape: bool,
    help: bool,
) -> (r: Option<TreeShortcut>)
    ensures
        r == (if rename {
            Some(TreeShortcut::Rename)
        } else if delete {
            Some(TreeShortcut::Delete)
        } else if select_all {
            Some(TreeShortcut::SelectAll)
        } else if extract {
            Some(TreeShortcut::Extract)
        } else if find {
            Some(TreeShortcut::Find)
        } else if escape {
            Some(TreeShortcut::Escape)
        } else if help {
            Some(TreeShortcut::Help)
        } else {
            None
        }),
{
    if rename {
        Some(TreeShortcut::Rename)
    } else if delete {
        Some(TreeShortcut::Delete)
    } else if select_all {
        Some(TreeShortcut::SelectAll)
    } else if extract {
        Some(TreeShortcut::Extract)
    } else if find {
        Some(TreeShortcut::Find)
    } else if escape {
        Some(TreeShortcut::Escape)
    } else if help {
        Some(TreeShortcut::Help)
    } else {
        None
    }
}

/// The cursor row when it is a real entry: not the synthetic `/` root, whose
/// path is empty.
pub open spec fn entry_cursor(cursor: Option<&str>) -> Option<Seq<char>> {
    match cursor {
        Some(c) => if c@.len() > 0 {
            Some(c@)
        } else {
            None
        },
        None => None,
    }
}

/// What `shortcut` does. `cursor` is the highlighted row, `writable` whether
/// the disk can be changed, `cursor_is_dir` whether the cursor's path names a
/// directory entry (`None` when it names no entry of the disk),
/// `filter_is_empty` whether the filter box is empty, and `selection` and
/// `selected` the marked files and the viewed one.
pub fn tree_command(
    shortcut: TreeShortcut,
    cursor: Option<&str>,
    writable: bool,
    cursor_is_dir: Option<bool>,
    filter_is_empty: bool,
    selection: &Selection,
    selected: Option<&str>,
) -> (r: TreeCommand)
    ensures
        match shortcut {
            TreeShortcut::Rename => match entry_cursor(cursor) {
                Some(c) => if writable && cursor_is_dir is Some {
                    r matches TreeCommand::Rename(p) && p@ == c
                } else {
                    r is Ignore
                },
                None => r is Ignore,
            },
            TreeShortcut::Delete => match entry_cursor(cursor) {
                Some(c) => if writable && cursor_is_dir == Some(true) {
                    r matches TreeCommand::RemoveDirectory(p) && p@ == c
                } else if writable && cursor_is_dir == Some(false) {
                    r matches TreeCommand::ConfirmDelete(ps) && texts(ps@) == (if selection@.len() > 1
                        && selection@.contains(c) {
                        selection@
                    } else {
                        seq![c]
                    })
                } else {
                    r is Ignore
                },
                None => r is Ignore,
            },
            TreeShortcut::SelectAll => r is SelectAllFiles,
            TreeShortcut::Extract => {
                let targets = match entry_cursor(cursor) {
                    Some(c) => if selection@.len() > 1 && selection@.contains(c) {
                        selection@
                    } else {
                        seq![c]
                    },
                    None => if selection@.len() == 0 {
                        match selected {
                            Some(s) => seq![s@],
                            None => Seq::empty(),
                        }
                    } else {
                        selection@
                    },
                };
                if targets.len() > 0 {
                    r matches TreeCommand::Extract(ps) && texts(ps@) == targets
                } else {
                    r is Ignore
                }
            },
            TreeShortcut::Find => r is FocusFilter,
            TreeShortcut::Escape => if filter_is_empty {
                r is ClearSelection
            } else {
                r is ClearFilter
            },
            TreeShortcut::Help => r is ShowShortcuts,
        },
{
    let entry: Option<&str> = match cursor {
        Some(c) => {
            let v = chars_of(c);
            if v.len() > 0 {
                Some(c)
            } else {
                None
            }
        },
        None => None,
    };
    match shortcut {
        TreeShortcut::Rename => match entry {
            Some(c) => if writable && cursor_is_dir.is_some() {
                TreeCommand::Rename(c.to_string())
            } else {
                TreeCommand::Ignore
            },
            None => TreeCommand::Ignore,
        },
        TreeShortcut::Delete => match entry {
            Some(c) => if writable && cursor_is_dir == Some(true) {
                TreeCommand::RemoveDirectory(c.to_string())
            } else if writable && cursor_is_dir == Some(false) {
                TreeCommand::ConfirmDelete(paths_for_row(selection, c))
            } else {
                TreeCommand::Ignore
            },
            None => TreeCommand::Ignore,
        },
        TreeShortcut::SelectAll => TreeCommand::SelectAllFiles,
        TreeShortcut::Extract => {
            let paths = match entry {
                Some(c) => paths_for_row(selection, c),
                None => selection_paths(selection, selected),
            };
            if paths.len() > 0 {
                TreeCommand::Extract(paths)
            } else {
                TreeCommand::Ignore
            }
        },
        TreeShortcut::Find => TreeCommand::FocusFilter,
        TreeShortcut::Escape => if filter_is_empty {
            TreeCommand::ClearSelection
        } else {
            TreeCommand::ClearFilter
        },
        TreeShortcut::Help => TreeCommand::ShowShortcuts,
    }
}

/// Whether the row with path `path` among `rows` is a file: moving the
/// keyboard cursor onto a file also opens it, onto a directory only
/// highlights it.
pub fn is_file_row(rows: &[VisibleRow], path: &str) -> (r: bool)
    ensures
        r == exists|k: int| file_row_at(rows@, k, path@),
{
    let target = chars_of(path);
    let mut i: usize = 0;
    while i < rows.len()
        invariant
            i <= rows@.len(),
            target@ == path@,
            forall|k: int| 0 <= k < i ==> !file_row_at(rows@, k, path@),
        decreases rows@.len() - i,
    {
        let own = chars_of(rows[i].path.as_str());
        if !rows[i].is_dir && chars_eq(own.as_slice(), target.as_slice()) {
            proof {
                assert(file_row_at(rows@, i as int, path@));
            }
            return true;
        }
        i = i + 1;
    }
    false
}

} // verus!
