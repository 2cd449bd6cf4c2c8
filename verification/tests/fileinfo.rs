use mediaexplorer_gui::entry::{Attributes, DirEntry, Timestamp};
use mediaexplorer_gui::fileinfo::{format_fileinfo_text, BloadFacts, FileFacts, MusicFacts};

fn no_facts() -> FileFacts {
    FileFacts { description: None, bload: None, graphics: None, music: None }
}

fn game_entry(modified: Option<Timestamp>) -> DirEntry {
    DirEntry {
        name: "GAME.BIN".to_string(),
        path: "DIR/GAME.BIN".to_string(),
        is_dir: false,
        size: 300,
        attributes: Attributes { read_only: true, archive: true, ..Attributes::default() },
        modified,
        children: Vec::new(),
    }
}

#[test]
fn fileinfo_without_entry_uses_the_byte_count() {
    let text = format_fileinfo_text("DIR/NOTE.TXT", &[1, 2, 3, 4, 5, 6, 7], None, &no_facts(), "1234ABCD", "DA39");
    assert_eq!(text, "Name: NOTE.TXT\nSize: 7 bytes\nCRC32: 1234ABCD\nSHA-1: DA39\n");
}

#[test]
fn fileinfo_with_entry_lists_time_and_attributes() {
    let ts = Timestamp { year: 1991, month: 3, day: 25, hour: 14, minute: 30 };
    let entry = game_entry(Some(ts));
    let text = format_fileinfo_text("DIR/GAME.BIN", &[0; 7], Some(&entry), &no_facts(), "00000000", "FF");
    assert_eq!(
        text,
        "Name: GAME.BIN\nSize: 300 bytes\nModified: 1991-03-25 14:30\nAttributes: R--A\nCRC32: 00000000\nSHA-1: FF\n"
    );
}

#[test]
fn fileinfo_without_time_skips_the_modified_line() {
    let entry = game_entry(None);
    let text = format_fileinfo_text("GAME.BIN", &[], Some(&entry), &no_facts(), "C", "S");
    assert_eq!(text, "Name: GAME.BIN\nSize: 300 bytes\nAttributes: R--A\nCRC32: C\nSHA-1: S\n");
}

#[test]
fn fileinfo_lists_bsave_header_in_hex() {
    let facts = FileFacts {
        description: Some("BSAVE binary".to_string()),
        bload: Some(BloadFacts { start: 0x8000, end: 0x80FF, exec_addr: 0x0A, data_len: 256 }),
        graphics: Some("SCREEN 5".to_string()),
        music: None,
    };
    let text = format_fileinfo_text("GAME.BIN", &[0; 263], None, &facts, "C", "S");
    assert_eq!(
        text,
        "Name: GAME.BIN\nSize: 263 bytes\nDescription: BSAVE binary\n\
         BSAVE header: start=0x8000 end=0x80FF exec=0x000A (256 bytes)\nGraphics: SCREEN 5\nCRC32: C\nSHA-1: S\n"
    );
}

#[test]
fn fileinfo_lists_music_tags() {
    let music = MusicFacts {
        format: "MBM".to_string(),
        title: Some("Theme".to_string()),
        author: None,
        positions: Some(12),
        channels: Some(9),
        subsongs: Some(0),
        extra: vec![("Tempo".to_string(), "6".to_string()), ("Drums".to_string(), "yes".to_string())],
    };
    let facts = FileFacts { description: None, bload: None, graphics: None, music: Some(music) };
    let text = format_fileinfo_text("SONG.MBM", &[0; 5], None, &facts, "C", "S");
    assert_eq!(
        text,
        "Name: SONG.MBM\nSize: 5 bytes\nMusic format: MBM\nTitle: Theme\nPositions: 12\nChannels: 9\n\
         Tempo: 6\nDrums: yes\nCRC32: C\nSHA-1: S\n"
    );
}

#[test]
fn fileinfo_shows_positive_subsong_counts() {
    let music = MusicFacts {
        format: "KSS".to_string(),
        title: None,
        author: Some("Konami".to_string()),
        positions: None,
        channels: None,
        subsongs: Some(3),
        extra: Vec::new(),
    };
    let facts = FileFacts { description: None, bload: None, graphics: None, music: Some(music) };
    let text = format_fileinfo_text("A.KSS", &[], None, &facts, "C", "S");
    assert_eq!(text, "Name: A.KSS\nSize: 0 bytes\nMusic format: KSS\nAuthor: Konami\nSubsongs: 3\nCRC32: C\nSHA-1: S\n");
}
