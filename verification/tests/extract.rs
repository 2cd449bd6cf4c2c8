use mediaexplorer_gui::extract::{any_extractable, archive_extraction, extract_mode, ExtractMode, MemberInfo};
use mediaexplorer_gui::entry::{Attributes, DirEntry, Timestamp};
use mediaexplorer_gui::extract::{plan_extraction, Planned};

fn entry(path: &str, is_dir: bool, children: Vec<DirEntry>) -> DirEntry {
    DirEntry {
        name: path.rsplit('/').next().unwrap().to_string(),
        path: path.to_string(),
        is_dir,
        size: 0,
        attributes: Attributes::default(),
        modified: None,
        children,
    }
}

/// UTILS/ { GAME.COM, SUB/ { DEEP.BIN } }, HELLO.TXT
fn disk() -> Vec<DirEntry> {
    vec![
        entry("HELLO.TXT", false, vec![]),
        entry(
            "UTILS",
            true,
            vec![entry("UTILS/GAME.COM", false, vec![]), entry("UTILS/SUB", true, vec![entry("UTILS/SUB/DEEP.BIN", false, vec![])])],
        ),
    ]
}

fn rels(plan: &[Planned]) -> Vec<String> {
    let mut v: Vec<String> = plan.iter().map(|p| p.parts.join("/")).collect();
    v.sort();
    v
}

#[test]
fn plan_extraction_walks_a_directory_preserving_structure() {
    let plan = plan_extraction(&disk(), &["UTILS".to_string()]);
    assert_eq!(rels(&plan), vec!["UTILS/GAME.COM", "UTILS/SUB/DEEP.BIN"]);
    assert!(plan.iter().all(|p| p.disk_path.starts_with("UTILS/")));
}

#[test]
fn plan_extraction_file_uses_base_name_not_full_path() {
    let plan = plan_extraction(&disk(), &["UTILS/GAME.COM".to_string()]);
    assert_eq!(rels(&plan), vec!["GAME.COM"]);
    assert_eq!(plan[0].disk_path, "UTILS/GAME.COM");
}

#[test]
fn unknown_paths_are_single_files_named_by_their_last_component() {
    let plan = plan_extraction(&disk(), &["TAPE/SONG".to_string(), "HELLO.TXT".to_string()]);
    assert_eq!(plan.len(), 2);
    assert_eq!(plan[0].parts, vec!["SONG"]);
    assert_eq!(plan[0].disk_path, "TAPE/SONG");
    assert_eq!(plan[0].modified, None);
    assert_eq!(plan[1].parts, vec!["HELLO.TXT"]);
}

#[test]
fn files_keep_their_modification_time_and_tree_order() {
    let mut tree = disk();
    let stamp = Timestamp { year: 1990, month: 5, day: 12, hour: 14, minute: 30 };
    tree[1].children[0].modified = Some(stamp);
    let plan = plan_extraction(&tree, &["UTILS".to_string()]);
    assert_eq!(plan[0].parts, vec!["UTILS", "GAME.COM"]);
    assert_eq!(plan[0].modified, Some(stamp));
    assert_eq!(plan[1].parts, vec!["UTILS", "SUB", "DEEP.BIN"]);
    assert!(plan_extraction(&tree, &[]).is_empty());
}

fn member(path: &str, is_directory: bool, decodable: bool) -> MemberInfo {
    MemberInfo { path: path.to_string(), is_directory, decodable }
}

#[test]
fn extract_mode_picks_save_as_for_one_file() {
    let one = vec!["A.BAS".to_string()];
    let two = vec!["A.BAS".to_string(), "B.BAS".to_string()];
    assert_eq!(extract_mode(&[], None), ExtractMode::Nothing);
    assert_eq!(extract_mode(&one, Some(false)), ExtractMode::One("A.BAS".to_string()));
    assert_eq!(extract_mode(&one, None), ExtractMode::One("A.BAS".to_string()));
    assert_eq!(extract_mode(&one, Some(true)), ExtractMode::Tree);
    assert_eq!(extract_mode(&two, Some(false)), ExtractMode::Tree);
}

#[test]
fn extract_all_skips_directories_and_undecodable_members() {
    let members = vec![
        member("DOCS/", true, true),
        member("DOCS/README.TXT", false, true),
        member("../EVIL.BIN", false, true),
        member("OLD.LZH", false, false),
    ];
    let (targets, skipped) = archive_extraction(&members);
    assert_eq!(targets, vec![(1, "DOCS/README.TXT".to_string()), (2, "EVIL.BIN".to_string())]);
    assert_eq!(skipped, 2);
    assert!(any_extractable(&members));
    assert!(!any_extractable(&[member("DIR/", true, true), member("X", false, false)]));
    assert!(!any_extractable(&[]));
}
