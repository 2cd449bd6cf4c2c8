use mediaexplorer_gui::entry::{Attributes, DirEntry};
use mediaexplorer_gui::selection::{paths_for_row, select_all_files, selection_paths, Selection};
use mediaexplorer_gui::tree_filter::matching_paths;
use mediaexplorer_gui::tree_nav::flatten_visible;

fn marked(items: &[&str]) -> Selection {
    let mut s = Selection::new();
    for i in items {
        s.insert(i.to_string());
    }
    s
}

#[test]
fn selection_paths_prefers_marked_set_in_sorted_order() {
    let sel = marked(&["B.TXT", "A.TXT"]);
    assert_eq!(selection_paths(&sel, Some("C.TXT")), vec!["A.TXT", "B.TXT"]);
}

#[test]
fn selection_paths_falls_back_to_viewed_file() {
    let sel = Selection::new();
    assert_eq!(selection_paths(&sel, Some("ONLY.TXT")), vec!["ONLY.TXT"]);
    assert!(selection_paths(&sel, None).is_empty());
}

#[test]
fn paths_for_row_targets_only_an_unselected_row() {
    let sel = marked(&["A.TXT", "B.TXT"]);
    assert_eq!(paths_for_row(&sel, "C.TXT"), vec!["C.TXT"]);
}

#[test]
fn paths_for_row_expands_to_whole_multiselection() {
    let sel = marked(&["B.TXT", "A.TXT"]);
    assert_eq!(paths_for_row(&sel, "A.TXT"), vec!["A.TXT", "B.TXT"]);
}

#[test]
fn paths_for_row_single_selected_row_acts_on_itself() {
    let sel = marked(&["A.TXT"]);
    assert_eq!(paths_for_row(&sel, "A.TXT"), vec!["A.TXT"]);
}

#[test]
fn insert_keeps_one_copy_in_ascending_order() {
    let mut s = Selection::new();
    assert!(s.insert("b".to_string()));
    assert!(s.insert("B".to_string()));
    assert!(s.insert("a/b".to_string()));
    assert!(s.insert("a".to_string()));
    assert!(!s.insert("b".to_string()));
    assert_eq!(s.paths(), vec!["B", "a", "a/b", "b"]);
    assert_eq!(s.len(), 4);
    assert!(s.contains("a/b"));
    assert!(!s.contains("a/"));
    s.clear();
    assert!(s.is_empty());
}

#[test]
fn order_follows_string_comparison() {
    let words = ["\u{F0B1}", "z", "Z", "", "zz", "\u{E9}", "0"];
    let mut expected: Vec<String> = words.iter().map(|w| w.to_string()).collect();
    expected.sort();
    let sel = marked(&words);
    assert_eq!(sel.paths(), expected);
}

fn file(path: &str) -> DirEntry {
    DirEntry {
        name: path.rsplit('/').next().unwrap().to_string(),
        path: path.to_string(),
        is_dir: false,
        size: 1,
        attributes: Attributes::default(),
        modified: None,
        children: Vec::new(),
    }
}

#[test]
fn select_all_files_selects_visible_files_not_directories() {
    let tree = vec![
        file("HELLO.TXT"),
        DirEntry {
            name: "UTILS".to_string(),
            path: "UTILS".to_string(),
            is_dir: true,
            size: 0,
            attributes: Attributes::default(),
            modified: None,
            children: vec![file("UTILS/GAME.COM"), file("UTILS/README.TXT")],
        },
    ];
    let rows = flatten_visible(&tree, &[], Some(""), None);
    let mut sel = Selection::new();
    select_all_files(&mut sel, &rows);
    assert_eq!(sel.paths(), vec!["HELLO.TXT", "UTILS/GAME.COM", "UTILS/README.TXT"]);

    sel.clear();
    let keep = matching_paths(&tree, "*.TXT");
    let rows = flatten_visible(&tree, &[], Some(""), Some(&keep));
    select_all_files(&mut sel, &rows);
    assert_eq!(sel.paths(), vec!["HELLO.TXT", "UTILS/README.TXT"]);
}

#[test]
fn remove_unmarks_only_that_path() {
    let mut sel = marked(&["C.TXT", "A.TXT", "B.TXT"]);
    assert!(sel.remove("B.TXT"));
    assert_eq!(sel.paths(), vec!["A.TXT", "C.TXT"]);
    assert!(!sel.remove("B.TXT"));
    assert_eq!(sel.len(), 2);
}

#[test]
fn toggle_flips_membership_and_twice_restores() {
    let mut sel = marked(&["A.TXT", "C.TXT"]);
    sel.toggle("B.TXT".to_string());
    assert_eq!(sel.paths(), vec!["A.TXT", "B.TXT", "C.TXT"]);
    sel.toggle("B.TXT".to_string());
    assert_eq!(sel.paths(), vec!["A.TXT", "C.TXT"]);
    sel.toggle("A.TXT".to_string());
    assert_eq!(sel.paths(), vec!["C.TXT"]);
}

#[test]
fn plain_click_selects_only_that_file() {
    let mut sel = marked(&["A.TXT", "C.TXT"]);
    sel.select_only("B.TXT".to_string());
    assert_eq!(sel.paths(), vec!["B.TXT"]);
}
