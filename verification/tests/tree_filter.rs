use mediaexplorer_gui::entry::{Attributes, DirEntry};
use mediaexplorer_gui::tree_filter::{glob_match, matching_paths};

#[test]
fn star_matches_any_run() {
    assert!(glob_match("*.PIC", "FOO.PIC"));
    assert!(glob_match("*.PIC", ".PIC"));
    assert!(!glob_match("*.PIC", "FOO.SC5"));
    assert!(glob_match("num*", "NUMBERS.TXT"));
    assert!(!glob_match("num*", "FOO.TXT"));
}

#[test]
fn single_char_wildcards_are_aliases() {
    for w in ["img%.sc5", "img?.sc5"] {
        assert!(glob_match(w, "IMG1.SC5"), "{w} should match IMG1.SC5");
        assert!(glob_match(w, "IMG9.SC5"), "{w} should match IMG9.SC5");
        assert!(!glob_match(w, "IMG.SC5"), "{w} must not match IMG.SC5");
        assert!(!glob_match(w, "IMG10.SC5"), "{w} must not match IMG10.SC5");
    }
}

#[test]
fn matching_is_case_insensitive_and_dot_is_literal() {
    assert!(glob_match("*.pic", "PHOTO.PIC"));
    assert!(glob_match("Num*", "numbers.txt"));
    assert!(!glob_match("a.c", "abc"));
    assert!(glob_match("a.c", "A.C"));
}

#[test]
fn empty_and_exact_patterns() {
    assert!(glob_match("", ""));
    assert!(!glob_match("", "X"));
    assert!(glob_match("readme.txt", "README.TXT"));
    assert!(!glob_match("readme.txt", "README.TX"));
}

#[test]
fn backtracking_finds_a_later_split() {
    assert!(glob_match("*ab*c", "aabxbc"));
    assert!(glob_match("a*b*c", "abbbbc"));
    assert!(!glob_match("a*b*c", "abbbbcd"));
    assert!(glob_match("**", ""));
    assert!(glob_match("*?", "x"));
    assert!(!glob_match("*?", ""));
}

#[test]
fn wildcards_consume_whole_characters() {
    assert!(glob_match("?.BIN", "\u{30A2}.BIN"));
    assert!(glob_match("%%", "\u{30A2}\u{30A4}"));
    assert!(!glob_match("?", "\u{30A2}\u{30A4}"));
}

fn file(path: &str) -> DirEntry {
    DirEntry {
        name: path.rsplit('/').next().unwrap().to_string(),
        path: path.to_string(),
        is_dir: false,
        size: 0,
        attributes: Attributes::default(),
        modified: None,
        children: Vec::new(),
    }
}

fn dir(path: &str, children: Vec<DirEntry>) -> DirEntry {
    DirEntry {
        name: path.rsplit('/').next().unwrap().to_string(),
        path: path.to_string(),
        is_dir: true,
        size: 0,
        attributes: Attributes::default(),
        modified: None,
        children,
    }
}

/// GAMES/ { A.PIC, B.SC5 }, UTILS/ { SUB/ { C.PIC } }, HELLO.BAS
fn sample() -> Vec<DirEntry> {
    vec![
        dir("GAMES", vec![file("GAMES/A.PIC"), file("GAMES/B.SC5")]),
        dir("UTILS", vec![dir("UTILS/SUB", vec![file("UTILS/SUB/C.PIC")])]),
        file("HELLO.BAS"),
    ]
}

#[test]
fn matching_paths_keeps_matches_and_their_ancestors() {
    let keep = matching_paths(&sample(), "*.PIC");
    let mut got: Vec<&str> = keep.iter().map(String::as_str).collect();
    got.sort_unstable();
    assert_eq!(got, vec!["GAMES", "GAMES/A.PIC", "UTILS", "UTILS/SUB", "UTILS/SUB/C.PIC"]);
    assert!(!keep.contains(&"GAMES/B.SC5".to_string()));
    assert!(!keep.contains(&"HELLO.BAS".to_string()));
}

#[test]
fn matching_paths_is_empty_when_nothing_matches() {
    assert!(matching_paths(&sample(), "*.XYZ").is_empty());
}

#[test]
fn matching_paths_lists_each_path_once() {
    let keep = matching_paths(&sample(), "*");
    let mut sorted = keep.clone();
    sorted.sort_unstable();
    sorted.dedup();
    assert_eq!(sorted.len(), keep.len());
    assert_eq!(keep.len(), 7);
}

#[test]
fn a_lone_star_matches_every_name() {
    for name in ["", "A", "GAME.COM", ".", "***"] {
        assert!(glob_match("*", name), "{name:?}");
    }
}

#[test]
fn case_folding_either_side_changes_nothing() {
    assert_eq!(glob_match("Game*.Com", "GAME1.COM"), glob_match("game*.com", "game1.com"));
    assert!(glob_match("ÄB", "ÄB"));
    assert!(!glob_match("äb", "ÄB"));
}

#[test]
fn matching_paths_come_in_ascending_order() {
    let keep = matching_paths(&sample(), "*");
    assert_eq!(
        keep,
        vec!["GAMES", "GAMES/A.PIC", "GAMES/B.SC5", "HELLO.BAS", "UTILS", "UTILS/SUB", "UTILS/SUB/C.PIC"]
    );
    let keep = matching_paths(&sample(), "*.PIC");
    assert_eq!(keep, vec!["GAMES", "GAMES/A.PIC", "UTILS", "UTILS/SUB", "UTILS/SUB/C.PIC"]);
}

#[test]
fn keep_set_is_closed_under_folder_prefixes() {
    for pattern in ["*", "*.PIC", "C.*", "*.XYZ", "HELLO.BAS"] {
        let keep = matching_paths(&sample(), pattern);
        for q in &keep {
            for (i, c) in q.char_indices() {
                if c == '/' {
                    assert!(keep.contains(&q[..i].to_string()), "{pattern}: {q}");
                }
            }
            // Every kept path is a matching file or a folder on the way to one.
            assert!(
                keep.iter().any(|f| f == q || f.starts_with(&format!("{q}/"))),
                "{pattern}: {q}"
            );
        }
    }
    assert!(matching_paths(&sample(), "*.XYZ").is_empty());
}
