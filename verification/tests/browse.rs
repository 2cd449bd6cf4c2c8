use mediaexplorer_gui::browse::{disk_rows, tape_rows, ROOT_PATH};
use mediaexplorer_gui::entry::{Attributes, DirEntry};

fn entry(path: &str, is_dir: bool, children: Vec<DirEntry>) -> DirEntry {
    DirEntry {
        name: path.rsplit('/').next().unwrap().to_string(),
        path: path.to_string(),
        is_dir,
        size: 1,
        attributes: Attributes::default(),
        modified: None,
        children,
    }
}

fn sorted_paths(tree: &Vec<DirEntry>, filter: &str) -> Vec<String> {
    let mut rows: Vec<String> = disk_rows(tree, false, &[], filter).into_iter().map(|r| r.path).collect();
    rows.sort();
    rows
}

#[test]
fn file_filter_shows_only_matches_and_their_ancestors() {
    let tree = vec![
        entry("GAMES", true, vec![entry("GAMES/A.PIC", false, vec![]), entry("GAMES/B.SC5", false, vec![])]),
        entry("HELLO.BAS", false, vec![]),
        entry("UTILS", true, vec![entry("UTILS/SUB", true, vec![entry("UTILS/SUB/C.PIC", false, vec![])])]),
    ];
    assert_eq!(
        sorted_paths(&tree, "*.PIC"),
        vec!["", "GAMES", "GAMES/A.PIC", "UTILS", "UTILS/SUB", "UTILS/SUB/C.PIC"]
    );
    assert!(disk_rows(&tree, false, &[], "*.XYZ").is_empty());
    let all = sorted_paths(&tree, "");
    assert!(all.contains(&"GAMES/B.SC5".to_string()));
    assert!(all.contains(&"HELLO.BAS".to_string()));
}

#[test]
fn file_filter_single_char_wildcard_aliases() {
    let tree = vec![
        entry("IMG1.SC5", false, vec![]),
        entry("IMG9.SC5", false, vec![]),
        entry("IMG10.SC5", false, vec![]),
        entry("IMG.SC5", false, vec![]),
    ];
    for pattern in ["img%.sc5", "img?.sc5"] {
        assert_eq!(sorted_paths(&tree, pattern), vec!["", "IMG1.SC5", "IMG9.SC5"], "pattern {pattern}");
    }
}

#[test]
fn partitioned_images_have_no_root_row() {
    let tree = vec![entry("P1", true, vec![entry("P1/A.COM", false, vec![])])];
    let rows = disk_rows(&tree, true, &[], "");
    assert_eq!(rows[0].path, "P1");
    assert_eq!(rows[0].depth, 0);
    let rows = disk_rows(&tree, false, &[], "");
    assert_eq!(rows[0].path, ROOT_PATH);
}

#[test]
fn tape_rows_follow_the_filter() {
    let keys: Vec<String> = ["GAME", "GAME.1", "DATA"].iter().map(|s| s.to_string()).collect();
    let all: Vec<String> = tape_rows(&keys, "").into_iter().map(|r| r.path).collect();
    assert_eq!(all, vec!["GAME", "GAME.1", "DATA"]);
    let some: Vec<String> = tape_rows(&keys, "game*").into_iter().map(|r| r.path).collect();
    assert_eq!(some, vec!["GAME", "GAME.1"]);
    assert!(tape_rows(&keys, "x").is_empty());
    assert!(tape_rows(&keys, "").iter().all(|r| !r.is_dir && r.depth == 0 && r.parent.is_none()));
}
