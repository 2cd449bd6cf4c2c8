use mediaexplorer_gui::selection::Selection;
use mediaexplorer_gui::shortcuts::{first_shortcut, is_file_row, tree_command, TreeCommand, TreeShortcut};
use mediaexplorer_gui::tree_nav::VisibleRow;

fn marked(items: &[&str]) -> Selection {
    let mut s = Selection::new();
    for i in items {
        s.insert(i.to_string());
    }
    s
}

fn strings(items: &[&str]) -> Vec<String> {
    items.iter().map(|s| s.to_string()).collect()
}

#[test]
fn first_shortcut_follows_the_fixed_priority() {
    assert_eq!(first_shortcut(false, false, false, false, false, false, false), None);
    assert_eq!(first_shortcut(true, true, true, true, true, true, true), Some(TreeShortcut::Rename));
    assert_eq!(first_shortcut(false, true, true, false, false, false, false), Some(TreeShortcut::Delete));
    assert_eq!(first_shortcut(false, false, false, true, true, false, false), Some(TreeShortcut::Extract));
    assert_eq!(first_shortcut(false, false, false, false, false, true, true), Some(TreeShortcut::Escape));
    assert_eq!(first_shortcut(false, false, false, false, false, false, true), Some(TreeShortcut::Help));
}

#[test]
fn rename_needs_a_writable_disk_and_a_real_entry() {
    let sel = Selection::new();
    assert_eq!(
        tree_command(TreeShortcut::Rename, Some("DIR/A.TXT"), true, Some(false), true, &sel, None),
        TreeCommand::Rename("DIR/A.TXT".to_string())
    );
    assert_eq!(tree_command(TreeShortcut::Rename, Some("DIR/A.TXT"), false, Some(false), true, &sel, None), TreeCommand::Ignore);
    assert_eq!(tree_command(TreeShortcut::Rename, Some(""), true, Some(true), true, &sel, None), TreeCommand::Ignore);
    assert_eq!(tree_command(TreeShortcut::Rename, Some("GONE"), true, None, true, &sel, None), TreeCommand::Ignore);
    assert_eq!(tree_command(TreeShortcut::Rename, None, true, None, true, &sel, None), TreeCommand::Ignore);
}

#[test]
fn delete_removes_directories_and_confirms_files() {
    let sel = marked(&["A.TXT", "B.TXT"]);
    assert_eq!(
        tree_command(TreeShortcut::Delete, Some("DIR"), true, Some(true), true, &sel, None),
        TreeCommand::RemoveDirectory("DIR".to_string())
    );
    assert_eq!(
        tree_command(TreeShortcut::Delete, Some("B.TXT"), true, Some(false), true, &sel, None),
        TreeCommand::ConfirmDelete(strings(&["A.TXT", "B.TXT"]))
    );
    assert_eq!(
        tree_command(TreeShortcut::Delete, Some("C.TXT"), true, Some(false), true, &sel, None),
        TreeCommand::ConfirmDelete(strings(&["C.TXT"]))
    );
    assert_eq!(tree_command(TreeShortcut::Delete, Some("C.TXT"), false, Some(false), true, &sel, None), TreeCommand::Ignore);
    assert_eq!(tree_command(TreeShortcut::Delete, Some(""), true, Some(true), true, &sel, None), TreeCommand::Ignore);
}

#[test]
fn extract_uses_the_cursor_row_or_the_selection() {
    let sel = marked(&["B.TXT", "A.TXT"]);
    assert_eq!(
        tree_command(TreeShortcut::Extract, Some("A.TXT"), false, Some(false), true, &sel, None),
        TreeCommand::Extract(strings(&["A.TXT", "B.TXT"]))
    );
    assert_eq!(
        tree_command(TreeShortcut::Extract, None, false, None, true, &sel, Some("Z.TXT")),
        TreeCommand::Extract(strings(&["A.TXT", "B.TXT"]))
    );
    let none = Selection::new();
    assert_eq!(
        tree_command(TreeShortcut::Extract, Some(""), false, None, true, &none, Some("Z.TXT")),
        TreeCommand::Extract(strings(&["Z.TXT"]))
    );
    assert_eq!(tree_command(TreeShortcut::Extract, None, false, None, true, &none, None), TreeCommand::Ignore);
}

#[test]
fn escape_clears_the_filter_before_the_selection() {
    let sel = marked(&["A.TXT"]);
    assert_eq!(tree_command(TreeShortcut::Escape, None, true, None, false, &sel, None), TreeCommand::ClearFilter);
    assert_eq!(tree_command(TreeShortcut::Escape, None, true, None, true, &sel, None), TreeCommand::ClearSelection);
    assert_eq!(tree_command(TreeShortcut::SelectAll, None, true, None, true, &sel, None), TreeCommand::SelectAllFiles);
    assert_eq!(tree_command(TreeShortcut::Find, None, true, None, true, &sel, None), TreeCommand::FocusFilter);
    assert_eq!(tree_command(TreeShortcut::Help, None, true, None, true, &sel, None), TreeCommand::ShowShortcuts);
}

#[test]
fn cursor_on_a_file_row_opens_it() {
    let rows = vec![
        VisibleRow { path: "DIR".to_string(), is_dir: true, depth: 0, parent: None, collapsible: true },
        VisibleRow {
            path: "DIR/A.TXT".to_string(),
            is_dir: false,
            depth: 1,
            parent: Some("DIR".to_string()),
            collapsible: false,
        },
    ];
    assert!(is_file_row(&rows, "DIR/A.TXT"));
    assert!(!is_file_row(&rows, "DIR"));
    assert!(!is_file_row(&rows, "DIR/B.TXT"));
}
