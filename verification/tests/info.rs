use mediaexplorer_gui::entry::{Attributes, DirEntry};
use mediaexplorer_gui::info::{
    add_target_dir, child_path, control_codes, directory_stats, push_removal_paths, raw_bytes_text,
    removal_paths, renamed_path, root_stats,
};

const ROOT_PATH: &str = "";

fn dir_entry(path: &str, is_dir: bool, size: u64, children: Vec<DirEntry>) -> DirEntry {
    DirEntry {
        name: path.rsplit('/').next().unwrap().to_string(),
        path: path.to_string(),
        is_dir,
        size,
        attributes: Attributes::default(),
        modified: None,
        children,
    }
}

#[test]
fn add_target_dir_resolves_the_destination_folder() {
    assert_eq!(add_target_dir(ROOT_PATH, true), "");
    assert_eq!(add_target_dir("TOOLS", true), "TOOLS");
    assert_eq!(add_target_dir("TOOLS/SUB", true), "TOOLS/SUB");
    assert_eq!(add_target_dir("TOOLS/ASM.COM", false), "TOOLS");
    assert_eq!(add_target_dir("HELLO.BAS", false), "");
}

#[test]
fn child_path_joins_unless_at_root() {
    assert_eq!(child_path("", "FILE.TXT"), "FILE.TXT");
    assert_eq!(child_path("TOOLS", "ASM.COM"), "TOOLS/ASM.COM");
    assert_eq!(child_path("A/B", "C.COM"), "A/B/C.COM");
}

#[test]
fn removal_paths_lists_descendants_before_their_folder() {
    let dir = dir_entry(
        "TOOLS",
        true,
        0,
        vec![
            dir_entry("TOOLS/A.TXT", false, 1, vec![]),
            dir_entry("TOOLS/SUB", true, 0, vec![dir_entry("TOOLS/SUB/B.TXT", false, 1, vec![])]),
        ],
    );
    let order = removal_paths(&dir);
    let pos = |p: &str| order.iter().position(|x| x == p).unwrap();
    assert!(pos("TOOLS/SUB/B.TXT") < pos("TOOLS/SUB"));
    assert!(pos("TOOLS/A.TXT") < pos("TOOLS"));
    assert!(pos("TOOLS/SUB") < pos("TOOLS"));
    assert_eq!(order.last().unwrap(), "TOOLS");
    assert_eq!(order.len(), 4);
}

#[test]
fn removal_order_is_children_in_order_then_the_folder() {
    let dir = dir_entry(
        "T",
        true,
        0,
        vec![
            dir_entry("T/A", false, 1, vec![]),
            dir_entry("T/S", true, 0, vec![dir_entry("T/S/B", false, 1, vec![])]),
        ],
    );
    assert_eq!(removal_paths(&dir), vec!["T/A", "T/S/B", "T/S", "T"]);
    let mut out = vec!["KEEP".to_string()];
    push_removal_paths(&dir, &mut out);
    assert_eq!(out, vec!["KEEP", "T/A", "T/S/B", "T/S", "T"]);
}

#[test]
fn directory_stats_counts_immediate_and_recursive() {
    let dir = dir_entry(
        "KIDS",
        true,
        0,
        vec![
            dir_entry("KIDS/KID.COM", false, 100, vec![]),
            dir_entry("KIDS/AKID.COM", false, 200, vec![]),
            dir_entry("KIDS/SUB", true, 0, vec![dir_entry("KIDS/SUB/C.COM", false, 50, vec![])]),
        ],
    );
    let s = directory_stats(&dir);
    assert_eq!(s.files, 2, "immediate files");
    assert_eq!(s.dirs, 1, "immediate subdirectories");
    assert_eq!(s.total_files, 3, "files including nested");
    assert_eq!(s.total_dirs, 1, "subdirectories including nested");
    assert_eq!(s.total_bytes, 350, "recursive sum of file sizes");
}

#[test]
fn directory_stats_of_empty_directory_is_all_zero() {
    let dir = dir_entry("EMPTY", true, 0, vec![]);
    let s = directory_stats(&dir);
    assert_eq!((s.files, s.dirs, s.total_files, s.total_dirs, s.total_bytes), (0, 0, 0, 0, 0));
}

#[test]
fn root_stats_count_the_whole_disk() {
    let tree = vec![
        dir_entry("A.COM", false, 10, vec![]),
        dir_entry("D", true, 0, vec![dir_entry("D/E", true, 0, vec![dir_entry("D/E/F.BIN", false, 5, vec![])])]),
    ];
    let s = root_stats(&tree);
    assert_eq!((s.files, s.dirs, s.total_files, s.total_dirs, s.total_bytes), (1, 1, 2, 2, 15));
}

#[test]
fn control_codes_are_sorted_and_each_listed_once() {
    assert_eq!(control_codes(&[0x41, 0x0C, 0x07, 0x0C, 0x7F, 0x80, 0x20]), vec![0x07, 0x0C, 0x7F]);
    assert!(control_codes(b"GAME.COM").is_empty());
    assert!(control_codes(&[]).is_empty());
}

#[test]
fn raw_bytes_are_spaced_uppercase_hex() {
    assert_eq!(raw_bytes_text(&[0x41, 0x0C, 0xFF]), "41 0C FF");
    assert_eq!(raw_bytes_text(&[0x07]), "07");
    assert_eq!(raw_bytes_text(&[]), "");
}

#[test]
fn renamed_entry_stays_in_its_folder() {
    assert_eq!(renamed_path("GAMES/OLD.BAS", "NEW.BAS"), "GAMES/NEW.BAS");
    assert_eq!(renamed_path("A/B/OLD", "X"), "A/B/X");
    assert_eq!(renamed_path("OLD.BAS", "NEW.BAS"), "NEW.BAS");
    assert_eq!(renamed_path("/OLD", "NEW"), "/NEW");
}
