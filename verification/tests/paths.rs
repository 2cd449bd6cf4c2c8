use mediaexplorer_gui::paths::{
    converted_file_name, drop_action, ext_in, extension, file_name, is_disk_image, is_openable, is_tape, recent_label,
    DropAction,
};

#[test]
fn app_is_disk_image_matches_known_extensions_case_insensitively() {
    assert!(is_disk_image("GAME.DSK"));
    assert!(is_disk_image("game.xsa"));
    assert!(is_disk_image("raw.DMK"));
    assert!(is_disk_image("/tmp/disk.Di2"));
    assert!(!is_disk_image("README.TXT"));
    assert!(!is_disk_image("noext"));
    assert!(!is_disk_image("tape.cas"));
}

#[test]
fn tests_is_disk_image_matches_known_extensions_case_insensitively() {
    assert!(is_disk_image("GAME.DSK"));
    assert!(is_disk_image("game.xsa"));
    assert!(is_disk_image("raw.DMK"));
    assert!(is_disk_image("/tmp/disk.Di2"));
    assert!(!is_disk_image("README.TXT"));
    assert!(!is_disk_image("noext"));
    assert!(!is_disk_image("tape.cas"));
}

#[test]
fn app_tape_and_openable_extensions() {
    assert!(is_tape("game.cas"));
    assert!(is_tape("GAME.TSX"));
    assert!(!is_tape("disk.dsk"));
    assert!(is_openable("disk.dmk"));
    assert!(is_openable("tape.tsx"));
    assert!(!is_openable("notes.txt"));
}

#[test]
fn tests_tape_and_openable_extensions() {
    assert!(is_tape("game.cas"));
    assert!(is_tape("GAME.TSX"));
    assert!(!is_tape("disk.dsk"));
    assert!(is_openable("disk.dmk"));
    assert!(is_openable("tape.tsx"));
    assert!(!is_openable("notes.txt"));
}

#[test]
fn recent_label_uses_file_name() {
    assert_eq!(recent_label("/a/b/Game.dsk"), "Game.dsk");
}

#[test]
fn recent_label_falls_back_to_the_path() {
    assert_eq!(recent_label("/"), "/");
    assert_eq!(recent_label("a/.."), "a/..");
}

#[test]
fn extensions_follow_path_rules() {
    assert_eq!(extension("dir/.profile"), None);
    assert_eq!(extension("a.tar.gz"), Some(vec!['g', 'z']));
    assert_eq!(extension("dir.d/noext"), None);
    assert_eq!(file_name("a/b/"), Some(vec!['b']));
    assert!(ext_in("X.Bin", &["bin", "com"]));
    assert!(!ext_in("X.bin", &[]));
}

fn strings(items: &[&str]) -> Vec<String> {
    items.iter().map(|s| s.to_string()).collect()
}

#[test]
fn dropping_one_image_opens_it() {
    assert_eq!(drop_action(&strings(&["/x/GAME.DSK"]), true), DropAction::Open("/x/GAME.DSK".to_string()));
    assert_eq!(drop_action(&strings(&["/x/song.cas"]), false), DropAction::Open("/x/song.cas".to_string()));
}

#[test]
fn dropping_other_files_adds_them_to_a_writable_disk() {
    assert_eq!(drop_action(&strings(&["/x/HELLO.BAS"]), true), DropAction::AddToDisk);
    assert_eq!(drop_action(&strings(&["/x/A.DSK", "/x/B.DSK"]), true), DropAction::AddToDisk);
    assert_eq!(drop_action(&strings(&["/x/HELLO.BAS", "/x/A.DSK"]), false), DropAction::Open("/x/HELLO.BAS".to_string()));
    assert_eq!(drop_action(&[], true), DropAction::Nothing);
}

#[test]
fn save_as_name_swaps_the_extension() {
    assert_eq!(converted_file_name("game.xsa", "dsk"), "game.dsk");
    assert_eq!(converted_file_name("my.game.dsk", "xsa"), "my.game.xsa");
    assert_eq!(converted_file_name("(tape)", "sav"), "(tape).sav");
}
