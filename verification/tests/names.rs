use mediaexplorer_gui::names::{
    base_name, display_ext, is_msx_name_char, msx_name_stem, normalize_msx_input, sanitize_8_3,
    sanitize_member_path, sanitize_msx_name, truncate,
};

fn no_high_chars(_c: char) -> bool {
    false
}

#[test]
fn app_sanitize_makes_msx_83_names() {
    assert_eq!(sanitize_msx_name("my long file.text"), "MYLONGFI.TEX");
    assert_eq!(sanitize_msx_name("a.b"), "A.B");
    assert_eq!(sanitize_msx_name(""), "FILE");
    assert_eq!(sanitize_msx_name("game.com"), "GAME.COM");
}

#[test]
fn tests_sanitize_makes_msx_83_names() {
    assert_eq!(sanitize_msx_name("my long file.text"), "MYLONGFI.TEX");
    assert_eq!(sanitize_msx_name("a.b"), "A.B");
    assert_eq!(sanitize_msx_name(""), "FILE");
    assert_eq!(sanitize_msx_name("game.com"), "GAME.COM");
}

#[test]
fn sanitize_splits_at_the_last_dot_and_drops_an_empty_extension() {
    assert_eq!(sanitize_msx_name("a.b.c"), "AB.C");
    assert_eq!(sanitize_msx_name("name."), "NAME");
    assert_eq!(sanitize_msx_name(".hidden"), "FILE.HID");
    assert_eq!(sanitize_msx_name("?!.x"), "!.X");
}

#[test]
fn sanitize_8_3_keeps_only_what_the_predicate_allows() {
    assert_eq!(sanitize_8_3("abc.def", |c| c != 'B'), "AC.DEF");
    assert_eq!(sanitize_8_3("abc.def", |_| false), "FILE");
}

#[test]
fn msx_name_chars_are_alnum_and_dos_punctuation() {
    assert!(is_msx_name_char('A'));
    assert!(is_msx_name_char('9'));
    assert!(!is_msx_name_char(' '));
    assert!(!is_msx_name_char('/'));
    assert!(!is_msx_name_char('.'));
}

#[test]
fn app_msx_name_stem_detects_applicable_names() {
    assert_eq!(msx_name_stem("GAME.COM"), "GAME");
    assert_eq!(msx_name_stem("GAME"), "GAME");
    assert!(msx_name_stem("").is_empty());
    assert!(msx_name_stem(".COM").is_empty());
}

#[test]
fn tests_msx_name_stem_detects_applicable_names() {
    assert_eq!(msx_name_stem("GAME.COM"), "GAME");
    assert_eq!(msx_name_stem("GAME"), "GAME");
    assert!(msx_name_stem("").is_empty());
    assert!(msx_name_stem(".COM").is_empty());
}

#[test]
fn app_normalize_input_enforces_83_shape() {
    assert_eq!(normalize_msx_input("my long file.text", no_high_chars), "MYLONGFI.TEX");
    assert_eq!(normalize_msx_input("game.com", no_high_chars), "GAME.COM");
    assert_eq!(normalize_msx_input("a.b.c", no_high_chars), "A.BC");
    assert_eq!(normalize_msx_input("a b/c?", no_high_chars), "ABC");
}

#[test]
fn tests_normalize_input_enforces_83_shape() {
    assert_eq!(normalize_msx_input("my long file.text", no_high_chars), "MYLONGFI.TEX");
    assert_eq!(normalize_msx_input("game.com", no_high_chars), "GAME.COM");
    assert_eq!(normalize_msx_input("a.b.c", no_high_chars), "A.BC");
    assert_eq!(normalize_msx_input("a b/c?", no_high_chars), "ABC");
}

#[test]
fn app_normalize_input_allows_in_progress_typing() {
    assert_eq!(normalize_msx_input("", no_high_chars), "");
    assert_eq!(normalize_msx_input("GAME.", no_high_chars), "GAME.");
}

#[test]
fn tests_normalize_input_allows_in_progress_typing() {
    assert_eq!(normalize_msx_input("", no_high_chars), "");
    assert_eq!(normalize_msx_input("GAME.", no_high_chars), "GAME.");
}

#[test]
fn normalize_input_asks_the_charset_about_non_ascii() {
    let kana = "\u{FF71}\u{FF72}";
    assert_eq!(normalize_msx_input(&format!("{kana}.bas"), |c| c == '\u{FF71}'), "\u{FF71}.BAS");
    assert_eq!(normalize_msx_input(&format!("{kana}ab.bas"), no_high_chars), "AB.BAS");
}

#[test]
fn app_sanitize_member_path_preserves_subdirs_and_blocks_traversal() {
    assert_eq!(sanitize_member_path("FILE.BIN"), "FILE.BIN");
    assert_eq!(sanitize_member_path("SUB/DIR/FILE.BIN"), "SUB/DIR/FILE.BIN");
    assert_eq!(sanitize_member_path("SUB\\FILE.BIN"), "SUB/FILE.BIN");
    assert_eq!(sanitize_member_path("../../etc/passwd"), "etc/passwd");
    assert_eq!(sanitize_member_path("/abs/path"), "abs/path");
    assert_eq!(sanitize_member_path("../.."), "extracted");
}

#[test]
fn tests_sanitize_member_path_preserves_subdirs_and_blocks_traversal() {
    assert_eq!(sanitize_member_path("FILE.BIN"), "FILE.BIN");
    assert_eq!(sanitize_member_path("SUB/DIR/FILE.BIN"), "SUB/DIR/FILE.BIN");
    assert_eq!(sanitize_member_path("SUB\\FILE.BIN"), "SUB/FILE.BIN");
    assert_eq!(sanitize_member_path("../../etc/passwd"), "etc/passwd");
    assert_eq!(sanitize_member_path("/abs/path"), "abs/path");
    assert_eq!(sanitize_member_path("../.."), "extracted");
}

#[test]
fn member_paths_drop_current_dir_parts() {
    assert_eq!(sanitize_member_path("./A/./B"), "A/B");
    assert_eq!(sanitize_member_path(""), "extracted");
}

#[test]
fn app_base_name_takes_last_path_component() {
    assert_eq!(base_name("A/B/C.BIN"), "C.BIN");
    assert_eq!(base_name("ROOT.COM"), "ROOT.COM");
    assert_eq!(base_name("DIR/SUB/"), "");
}

#[test]
fn tests_base_name_takes_last_path_component() {
    assert_eq!(base_name("A/B/C.BIN"), "C.BIN");
    assert_eq!(base_name("ROOT.COM"), "ROOT.COM");
    assert_eq!(base_name("DIR/SUB/"), "");
}

#[test]
fn display_ext_replaces_nonprintable_but_keeps_char_count() {
    assert_eq!(display_ext("pct"), "pct");
    assert_eq!(display_ext(""), "");
    let ctrl = "\u{001a}\u{000c}\u{000c}";
    let shown = display_ext(ctrl);
    assert_eq!(shown, "???");
    assert_eq!(shown.chars().count(), ctrl.chars().count());
    assert!(shown.chars().all(|c| c.is_ascii_graphic()));
    assert_eq!(display_ext("a\u{001a}b"), "a?b");
    assert_eq!(display_ext("\u{F081}"), "?");
}

#[test]
fn truncate_marks_elision_with_an_ellipsis() {
    assert_eq!(truncate("ABCDEF", 3), "AB\u{2026}");
    assert_eq!(truncate("ABC", 3), "ABC");
    assert_eq!(truncate("AB", 3), "AB");
    assert_eq!(truncate("ABC", 1), "\u{2026}");
    assert_eq!(truncate("ABC", 3).chars().count(), 3);
}

#[test]
fn sanitized_names_are_uppercase_and_stable() {
    for raw in ["hello world.basic", "x", ".hidden", "a.b.c.txt", "ÄÖ.é", "", "file..", "long_name_here.bas"] {
        let once = sanitize_msx_name(raw);
        assert!(!once.chars().any(|c| c.is_ascii_lowercase()), "{raw:?}");
        assert_eq!(sanitize_msx_name(&once), once, "{raw:?}");
    }
}

#[test]
fn typed_names_keep_an_8_3_shape_and_are_stable() {
    for raw in ["my long file.text", "game.com", "a.b.c", ".", "abc.", "ok", "x.yz.w", "über.ß"] {
        let once = normalize_msx_input(raw, no_high_chars);
        let (st, ex) = once.split_once('.').unwrap_or((once.as_str(), ""));
        assert!(!ex.contains('.'), "{raw:?}");
        assert!(st.chars().count() <= 8 && ex.chars().count() <= 3, "{raw:?}");
        assert!(!once.chars().any(|c| c.is_ascii_lowercase()), "{raw:?}");
        assert_eq!(once.contains('.'), raw.contains('.'), "{raw:?}");
        assert_eq!(normalize_msx_input(&once, no_high_chars), once, "{raw:?}");
    }
}

#[test]
fn member_paths_split_back_into_safe_pieces() {
    for (raw, pieces) in [
        ("SUB/DIR/FILE.BIN", vec!["SUB", "DIR", "FILE.BIN"]),
        ("..\\..\\etc//passwd", vec!["etc", "passwd"]),
        ("/./a/../b/", vec!["a", "b"]),
        ("../..", vec!["extracted"]),
        ("", vec!["extracted"]),
    ] {
        let out = sanitize_member_path(raw);
        assert_eq!(out.split('/').collect::<Vec<_>>(), pieces, "{raw:?}");
    }
}
