use mediaexplorer_gui::menu::{check_state, id_suffix};
use mediaexplorer_gui::settings::{ByteGrouping, HexViewOptions, Settings};

#[test]
fn check_state_reflects_settings() {
    let s = Settings {
        hex: HexViewOptions {
            show_line_numbers: false,
            line_number_hex: false,
            grouping: ByteGrouping::Of(4),
            ..HexViewOptions::default()
        },
        ..Settings::default()
    };
    assert!(!check_state("view.line_numbers", &s));
    assert!(check_state("view.lnf.dec", &s));
    assert!(!check_state("view.lnf.hex", &s));
    assert!(check_state("view.group.4", &s));
    assert!(!check_state("view.group.none", &s));
    assert!(!check_state("view.group.8", &s));
}

#[test]
fn check_state_reads_bytes_per_row_and_toggles() {
    let s = Settings::default();
    assert!(check_state("view.bpr.16", &s));
    assert!(!check_state("view.bpr.8", &s));
    assert!(check_state("view.status_bar", &s));
    assert!(check_state("view.hex", &s));
    assert!(check_state("view.ascii", &s));
    assert!(check_state("view.columns", &s));
    assert!(!check_state("view.hide_nulls", &s));
    assert!(check_state("view.group.1", &s));
    let ungrouped = Settings {
        hex: HexViewOptions { grouping: ByteGrouping::Ungrouped, ..HexViewOptions::default() },
        ..Settings::default()
    };
    assert!(check_state("view.group.none", &ungrouped));
    assert!(!check_state("view.group.1", &ungrouped));
}

#[test]
fn id_suffix_is_zero_unless_the_prefix_and_a_number_match() {
    assert_eq!(id_suffix("view.bpr.16", "view.bpr."), 16);
    assert_eq!(id_suffix("view.bpr.+8", "view.bpr."), 8);
    assert_eq!(id_suffix("view.bpr.x", "view.bpr."), 0);
    assert_eq!(id_suffix("view.bpr.", "view.bpr."), 0);
    assert_eq!(id_suffix("view.group.4", "view.bpr."), 0);
    assert_eq!(id_suffix("view.bpr.99999999999999999999999", "view.bpr."), 0);
}

#[test]
fn unknown_ids_compare_the_grouping_with_zero() {
    let s = Settings {
        hex: HexViewOptions { grouping: ByteGrouping::Of(0), ..HexViewOptions::default() },
        ..Settings::default()
    };
    assert!(check_state("app.about", &s));
    assert!(!check_state("app.about", &Settings::default()));
}

use mediaexplorer_gui::i18n::Lang;
use mediaexplorer_gui::menu::{apply_menu_event, MenuAction};

#[test]
fn menu_commands_ask_for_their_actions() {
    let mut s = Settings::default();
    assert_eq!(apply_menu_event(&mut s, "app.about"), MenuAction::ShowAbout);
    assert_eq!(apply_menu_event(&mut s, "file.open"), MenuAction::Open);
    assert_eq!(apply_menu_event(&mut s, "file.save_xsa"), MenuAction::SaveXsa);
    assert_eq!(apply_menu_event(&mut s, "encoding.auto"), MenuAction::AutoCharset);
    assert_eq!(apply_menu_event(&mut s, "encoding.2"), MenuAction::Charset(2));
    assert_eq!(apply_menu_event(&mut s, "encoding.x"), MenuAction::Nothing);
    assert_eq!(apply_menu_event(&mut s, "lang.1"), MenuAction::Language(Lang::Dutch));
    assert_eq!(apply_menu_event(&mut s, "lang.7"), MenuAction::Nothing);
    assert_eq!(apply_menu_event(&mut s, "recent.3"), MenuAction::OpenRecent(3));
    assert_eq!(apply_menu_event(&mut s, "no.such"), MenuAction::Nothing);
    assert_eq!(s, Settings::default());
}

#[test]
fn view_commands_change_the_settings() {
    let mut s = Settings::default();
    assert_eq!(apply_menu_event(&mut s, "view.line_numbers"), MenuAction::Nothing);
    assert!(!s.hex.show_line_numbers);
    apply_menu_event(&mut s, "view.line_numbers");
    assert!(s.hex.show_line_numbers);
    apply_menu_event(&mut s, "view.status_bar");
    assert!(!s.show_status_bar);
    apply_menu_event(&mut s, "view.lnf.dec");
    assert!(!s.hex.line_number_hex);
    apply_menu_event(&mut s, "view.bpr.32");
    assert_eq!(s.hex.bytes_per_row, 32);
    apply_menu_event(&mut s, "view.bpr.x");
    assert_eq!(s.hex.bytes_per_row, 32);
    apply_menu_event(&mut s, "view.group.8");
    assert_eq!(s.hex.grouping, ByteGrouping::Of(8));
    apply_menu_event(&mut s, "view.group.none");
    assert_eq!(s.hex.grouping, ByteGrouping::Ungrouped);
    assert!(check_state("view.group.none", &s));
    assert!(check_state("view.bpr.32", &s));
}

#[test]
fn clearing_recent_files_empties_the_list() {
    let mut s = Settings::default();
    s.push_recent("/a/GAME.DSK");
    assert_eq!(apply_menu_event(&mut s, "recent.clear"), MenuAction::RecentCleared);
    assert!(s.recent.is_empty());
}
