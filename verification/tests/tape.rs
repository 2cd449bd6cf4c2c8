use mediaexplorer_gui::tape::{tape_block_lines, tape_file_columns, MsxHeaderInfo, TapeBlockInfo};
use mediaexplorer_gui::tape::{document_title, find_key, tape_keys};

fn names(v: &[&str]) -> Vec<String> {
    v.iter().map(|s| s.to_string()).collect()
}

#[test]
fn repeated_and_empty_names_get_numbered_keys() {
    let keys = tape_keys(&names(&["GAME", "", "GAME", "DATA", "", "GAME"]));
    assert_eq!(keys, vec!["GAME", "FILE", "GAME.1", "DATA", "FILE.1", "GAME.2"]);
}

#[test]
fn a_file_named_file_shares_the_placeholder_count() {
    let keys = tape_keys(&names(&["", "FILE"]));
    assert_eq!(keys, vec!["FILE", "FILE.1"]);
    assert!(tape_keys(&[]).is_empty());
}

#[test]
fn keys_find_their_file() {
    let keys = tape_keys(&names(&["A", "B", "A"]));
    assert_eq!(find_key(&keys, "A.1"), Some(2));
    assert_eq!(find_key(&keys, "B"), Some(1));
    assert_eq!(find_key(&keys, "C"), None);
}

#[test]
fn titles_fall_back_when_there_is_no_file_name() {
    assert_eq!(document_title(Some("/disks/GAME.DSK"), "(in-memory image)"), "GAME.DSK");
    assert_eq!(document_title(None, "(in-memory image)"), "(in-memory image)");
    assert_eq!(document_title(Some("/"), "(tape)"), "(tape)");
}

#[test]
fn tape_blocks_are_listed_like_tsx_viewers() {
    let custom = TapeBlockInfo::CustomInfo { id: "MSX".to_string(), text: "Game tape".to_string() };
    assert_eq!(tape_block_lines(1, &custom), vec!["  1  #35 Custom info", "       MSX: Game tape"]);
    let archive = TapeBlockInfo::ArchiveInfo(vec![
        ("Title".to_string(), "Knightmare".to_string()),
        ("Year".to_string(), "1986".to_string()),
    ]);
    assert_eq!(
        tape_block_lines(12, &archive),
        vec![" 12  #32 Archive info", "       Title: Knightmare", "       Year: 1986"]
    );
    let header = TapeBlockInfo::Msx {
        header: Some(MsxHeaderInfo { kind: "BASIC".to_string(), name: "GAME".to_string() }),
        data_len: 16,
    };
    assert_eq!(tape_block_lines(3, &header), vec!["  3  #4B MSX block   BASIC HEADER (16 bytes)", "       Found: GAME"]);
    let data = TapeBlockInfo::Msx { header: None, data_len: 2048 };
    assert_eq!(tape_block_lines(4, &data), vec!["  4  #4B MSX block   (2048 bytes)"]);
    let other = TapeBlockInfo::Other { id: 0x10, len: 300 };
    assert_eq!(tape_block_lines(1234, &other), vec!["1234  #10 block       (300 bytes)"]);
    let other = TapeBlockInfo::Other { id: 0x0A, len: 0 };
    assert_eq!(tape_block_lines(5, &other), vec![format!("{:>3}  #{:02X} block       ({} bytes)", 5, 0x0A, 0)]);
}

#[test]
fn tape_file_row_columns_are_aligned() {
    assert_eq!(tape_file_columns("BASIC", 1234), "BASIC       1234");
    assert_eq!(tape_file_columns("BINARY", 5), format!("{:<7} {:>8}", "BINARY", 5));
    assert_eq!(tape_file_columns("LONGKIND", 123456789), "LONGKIND 123456789");
}
