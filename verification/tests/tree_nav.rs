use mediaexplorer_gui::entry::{Attributes, DirEntry};
use mediaexplorer_gui::tree_nav::{flatten_visible, navigate, NavKey, TreeNav, VisibleRow};

fn file(path: &str) -> DirEntry {
    DirEntry {
        name: path.rsplit('/').next().unwrap().to_string(),
        path: path.to_string(),
        is_dir: false,
        size: 0,
        attributes: Attributes::default(),
        modified: None,
        children: Vec::new(),
    }
}

fn dir(path: &str, children: Vec<DirEntry>) -> DirEntry {
    DirEntry {
        name: path.rsplit('/').next().unwrap().to_string(),
        path: path.to_string(),
        is_dir: true,
        size: 0,
        attributes: Attributes::default(),
        modified: None,
        children,
    }
}

/// GAMES/ { A.PCT, B.PCT }, UTILS/ { SUB/ { C.COM } }, HELLO.BAS
fn sample() -> Vec<DirEntry> {
    vec![
        dir("GAMES", vec![file("GAMES/A.PCT"), file("GAMES/B.PCT")]),
        dir("UTILS", vec![dir("UTILS/SUB", vec![file("UTILS/SUB/C.COM")])]),
        file("HELLO.BAS"),
    ]
}

fn set(items: &[&str]) -> Vec<String> {
    items.iter().map(|s| s.to_string()).collect()
}

fn paths(rows: &[VisibleRow]) -> Vec<&str> {
    rows.iter().map(|r| r.path.as_str()).collect()
}

#[test]
fn flatten_lists_everything_when_nothing_collapsed() {
    let rows = flatten_visible(&sample(), &[], None, None);
    assert_eq!(
        paths(&rows),
        vec!["GAMES", "GAMES/A.PCT", "GAMES/B.PCT", "UTILS", "UTILS/SUB", "UTILS/SUB/C.COM", "HELLO.BAS"]
    );
    let sub = rows.iter().find(|r| r.path == "UTILS/SUB").unwrap();
    assert_eq!(sub.depth, 1);
    assert_eq!(sub.parent.as_deref(), Some("UTILS"));
    let leaf = rows.iter().find(|r| r.path == "UTILS/SUB/C.COM").unwrap();
    assert_eq!(leaf.depth, 2);
    assert_eq!(leaf.parent.as_deref(), Some("UTILS/SUB"));
}

#[test]
fn flatten_with_root_nests_entries_under_it() {
    let rows = flatten_visible(&sample(), &[], Some(""), None);
    assert_eq!(rows[0].path, "");
    assert_eq!(rows[0].depth, 0);
    assert!(rows[0].is_dir);
    assert_eq!(rows[0].parent, None);
    assert!(!rows[0].collapsible);
    let games = rows.iter().find(|r| r.path == "GAMES").unwrap();
    assert_eq!(games.depth, 1);
    assert_eq!(games.parent.as_deref(), Some(""));
    assert!(games.collapsible);
}

#[test]
fn root_is_not_collapsible_so_children_always_show() {
    let collapsed = set(&[""]);
    let rows = flatten_visible(&sample(), &collapsed, Some(""), None);
    assert!(rows.iter().any(|r| r.path == "GAMES"));
    assert!(rows.len() > 1);
}

#[test]
fn navigate_around_the_root_row() {
    let rows = flatten_visible(&sample(), &[], Some(""), None);
    let c: Vec<String> = Vec::new();
    assert_eq!(navigate(&rows, Some(""), &c, NavKey::Right), TreeNav::MoveTo("GAMES".to_string()));
    assert_eq!(navigate(&rows, Some(""), &c, NavKey::Left), TreeNav::Nothing);
    assert_eq!(navigate(&rows, Some("HELLO.BAS"), &c, NavKey::Left), TreeNav::MoveTo(String::new()));
    assert_eq!(navigate(&rows, Some("GAMES"), &c, NavKey::Up), TreeNav::MoveTo(String::new()));
    assert_eq!(navigate(&rows, Some(""), &c, NavKey::Up), TreeNav::Nothing);
}

#[test]
fn flatten_hides_children_of_collapsed_dirs() {
    let collapsed = set(&["GAMES"]);
    let rows = flatten_visible(&sample(), &collapsed, None, None);
    assert_eq!(paths(&rows), vec!["GAMES", "UTILS", "UTILS/SUB", "UTILS/SUB/C.COM", "HELLO.BAS"]);
}

#[test]
fn filter_keeps_only_matches_and_their_ancestors() {
    let keep = set(&["UTILS", "UTILS/SUB", "UTILS/SUB/C.COM"]);
    let rows = flatten_visible(&sample(), &[], None, Some(&keep));
    assert_eq!(paths(&rows), vec!["UTILS", "UTILS/SUB", "UTILS/SUB/C.COM"]);
}

#[test]
fn filter_descends_collapsed_directories() {
    let collapsed = set(&["UTILS", "UTILS/SUB"]);
    let keep = set(&["UTILS", "UTILS/SUB", "UTILS/SUB/C.COM"]);
    let rows = flatten_visible(&sample(), &collapsed, None, Some(&keep));
    assert_eq!(paths(&rows), vec!["UTILS", "UTILS/SUB", "UTILS/SUB/C.COM"]);
}

#[test]
fn filter_with_root_keeps_root_row() {
    let keep = set(&["HELLO.BAS"]);
    let rows = flatten_visible(&sample(), &[], Some(""), Some(&keep));
    assert_eq!(paths(&rows), vec!["", "HELLO.BAS"]);
}

#[test]
fn down_and_up_step_through_visible_rows() {
    let rows = flatten_visible(&sample(), &[], None, None);
    let c: Vec<String> = Vec::new();
    assert_eq!(navigate(&rows, Some("GAMES"), &c, NavKey::Down), TreeNav::MoveTo("GAMES/A.PCT".to_string()));
    assert_eq!(navigate(&rows, Some("GAMES/A.PCT"), &c, NavKey::Up), TreeNav::MoveTo("GAMES".to_string()));
}

#[test]
fn up_and_down_stop_at_the_edges() {
    let rows = flatten_visible(&sample(), &[], None, None);
    let c: Vec<String> = Vec::new();
    assert_eq!(navigate(&rows, Some("GAMES"), &c, NavKey::Up), TreeNav::Nothing);
    assert_eq!(navigate(&rows, Some("HELLO.BAS"), &c, NavKey::Down), TreeNav::Nothing);
}

#[test]
fn no_cursor_drops_onto_the_first_row() {
    let rows = flatten_visible(&sample(), &[], None, None);
    let c: Vec<String> = Vec::new();
    assert_eq!(navigate(&rows, None, &c, NavKey::Down), TreeNav::MoveTo("GAMES".to_string()));
    assert_eq!(navigate(&rows, Some("GONE.TXT"), &c, NavKey::Up), TreeNav::MoveTo("GAMES".to_string()));
}

#[test]
fn right_expands_a_collapsed_dir_then_steps_into_it() {
    let collapsed = set(&["GAMES"]);
    let rows = flatten_visible(&sample(), &collapsed, None, None);
    assert_eq!(
        navigate(&rows, Some("GAMES"), &collapsed, NavKey::Right),
        TreeNav::SetCollapsed("GAMES".to_string(), false)
    );
    let rows = flatten_visible(&sample(), &[], None, None);
    assert_eq!(navigate(&rows, Some("GAMES"), &[], NavKey::Right), TreeNav::MoveTo("GAMES/A.PCT".to_string()));
}

#[test]
fn right_on_a_file_does_nothing() {
    let rows = flatten_visible(&sample(), &[], None, None);
    assert_eq!(navigate(&rows, Some("HELLO.BAS"), &[], NavKey::Right), TreeNav::Nothing);
}

#[test]
fn left_collapses_an_expanded_dir() {
    let rows = flatten_visible(&sample(), &[], None, None);
    assert_eq!(
        navigate(&rows, Some("GAMES"), &[], NavKey::Left),
        TreeNav::SetCollapsed("GAMES".to_string(), true)
    );
}

#[test]
fn left_jumps_to_parent_from_a_file_or_collapsed_dir() {
    let rows = flatten_visible(&sample(), &[], None, None);
    let c: Vec<String> = Vec::new();
    assert_eq!(navigate(&rows, Some("GAMES/A.PCT"), &c, NavKey::Left), TreeNav::MoveTo("GAMES".to_string()));
    let collapsed = set(&["UTILS/SUB"]);
    let rows = flatten_visible(&sample(), &collapsed, None, None);
    assert_eq!(navigate(&rows, Some("UTILS/SUB"), &collapsed, NavKey::Left), TreeNav::MoveTo("UTILS".to_string()));
}

#[test]
fn left_at_top_level_does_nothing() {
    let rows = flatten_visible(&sample(), &[], None, None);
    assert_eq!(navigate(&rows, Some("HELLO.BAS"), &[], NavKey::Left), TreeNav::Nothing);
    let collapsed = set(&["GAMES"]);
    let rows = flatten_visible(&sample(), &collapsed, None, None);
    assert_eq!(navigate(&rows, Some("GAMES"), &collapsed, NavKey::Left), TreeNav::Nothing);
}

#[test]
fn down_then_up_returns_to_the_same_row() {
    let rows = flatten_visible(&sample(), &[], None, None);
    for r in &rows[..rows.len() - 1] {
        let next = match navigate(&rows, Some(&r.path), &[], NavKey::Down) {
            TreeNav::MoveTo(p) => p,
            other => panic!("unexpected {other:?}"),
        };
        assert_eq!(navigate(&rows, Some(&next), &[], NavKey::Up), TreeNav::MoveTo(r.path.clone()));
    }
}

#[test]
fn empty_rows_resolve_to_nothing() {
    assert_eq!(navigate(&[], Some("A"), &[], NavKey::Down), TreeNav::Nothing);
}
