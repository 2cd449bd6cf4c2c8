use mediaexplorer_gui::views::{
    can_edit_hex, default_view_mode, match_counter, parse_tab, parse_view, shows_copy_button, shows_find_bar, toolbar_views,
    shoot_tick, view_ext, viewer_modes, AppView, ShootAction, ViewMode, MAX_HEX_EDIT_BYTES,
};

#[test]
fn viewer_tabs_are_named_in_any_case() {
    assert_eq!(parse_view("info"), Some(ViewMode::Info));
    assert_eq!(parse_view("HEX"), Some(ViewMode::Hex));
    assert_eq!(parse_view("Text"), Some(ViewMode::Text));
    assert_eq!(parse_view("basic"), Some(ViewMode::Basic));
    assert_eq!(parse_view("DisAsm"), Some(ViewMode::Disasm));
    assert_eq!(parse_view("screen"), Some(ViewMode::Screen));
    assert_eq!(parse_view("archive"), None);
    assert_eq!(parse_view(" hex"), None);
}

#[test]
fn top_level_views_are_named_in_any_case() {
    assert_eq!(parse_tab("files"), Some(AppView::Files));
    assert_eq!(parse_tab("Sectors"), Some(AppView::Sectors));
    assert_eq!(parse_tab("MAP"), Some(AppView::DiskMap));
    assert_eq!(parse_tab("stats"), Some(AppView::Stats));
    assert_eq!(parse_tab("analyze"), None);
    assert_eq!(parse_tab(""), None);
}

#[test]
fn view_ext_is_the_lowercased_last_dot_segment() {
    assert_eq!(view_ext("GAME.COM"), "com");
    assert_eq!(view_ext("a.b.TXT"), "txt");
    assert_eq!(view_ext("NOEXT"), "noext");
    assert_eq!(view_ext("DIR.X/FILE"), "x/file");
    assert_eq!(view_ext("END."), "");
}

#[test]
fn default_view_by_extension_and_format_checks() {
    assert_eq!(default_view_mode("PIC.SC8", false, true, false), ViewMode::Screen);
    assert_eq!(default_view_mode("PROG.BAS", false, false, false), ViewMode::Basic);
    assert_eq!(default_view_mode("DATA.BIN", false, false, false), ViewMode::Disasm);
    assert_eq!(default_view_mode("GAME.COM", false, false, false), ViewMode::Disasm);
    assert_eq!(default_view_mode("TOOL.cpm", false, false, false), ViewMode::Disasm);
    assert_eq!(default_view_mode("README.TXT", false, false, false), ViewMode::Text);
    assert_eq!(default_view_mode("AUTOEXEC.BAT", false, false, false), ViewMode::Text);
    assert_eq!(default_view_mode("notes.txt", false, false, false), ViewMode::Text);
    assert_eq!(default_view_mode("SONG.MBM", false, false, true), ViewMode::Info);
    assert_eq!(default_view_mode("GAME.LZH", true, false, false), ViewMode::Archive);
    assert_eq!(default_view_mode("X.DAT", false, false, false), ViewMode::Hex);
    assert_eq!(default_view_mode("HLP", false, false, false), ViewMode::Text);
}

#[test]
fn format_checks_take_precedence_in_order() {
    assert_eq!(default_view_mode("A.BAS", true, true, true), ViewMode::Archive);
    assert_eq!(default_view_mode("A.BAS", false, true, true), ViewMode::Screen);
    assert_eq!(default_view_mode("A.BAS", false, false, true), ViewMode::Basic);
    assert_eq!(default_view_mode("A.COM", false, false, true), ViewMode::Info);
}

/// What the format libraries answer for the files these tests name: the
/// archive formats, the pictures the Screen view decodes, and music files.
fn format_checks(path: &str) -> (bool, bool, bool) {
    let ext = view_ext(path);
    let archive = ["lzh", "lha", "lzs", "pma"].contains(&ext.as_str());
    let screen = ["sc8", "sc5", "sc2"].contains(&ext.as_str());
    let music = ["mbm", "mod", "pt3"].contains(&ext.as_str());
    (archive, screen, music)
}

fn view_for(path: &str) -> ViewMode {
    let (archive, screen, music) = format_checks(path);
    default_view_mode(path, archive, screen, music)
}

fn check_default_views() {
    assert_eq!(view_for("PIC.SC8"), ViewMode::Screen);
    assert_eq!(view_for("PROG.BAS"), ViewMode::Basic);
    assert_eq!(view_for("DATA.BIN"), ViewMode::Disasm);
    assert_eq!(view_for("GAME.COM"), ViewMode::Disasm);
    assert_eq!(view_for("TOOL.cpm"), ViewMode::Disasm);
    assert_eq!(view_for("README.TXT"), ViewMode::Text);
    assert_eq!(view_for("AUTOEXEC.BAT"), ViewMode::Text);
    assert_eq!(view_for("notes.txt"), ViewMode::Text);
    assert_eq!(view_for("SONG.MBM"), ViewMode::Info);
    assert_eq!(view_for("TUNE.mod"), ViewMode::Info);
    assert_eq!(view_for("track.pt3"), ViewMode::Info);
    assert_eq!(view_for("GAME.LZH"), ViewMode::Archive);
    assert_eq!(view_for("util.lha"), ViewMode::Archive);
    assert_eq!(view_for("DEMO.LZS"), ViewMode::Archive);
    assert_eq!(view_for("SNOOPY.pma"), ViewMode::Archive);
}

#[test]
fn app_default_view_mode_by_extension() {
    check_default_views();
}

#[test]
fn tests_default_view_mode_by_extension() {
    check_default_views();
}

#[test]
fn toolbar_tabs_follow_the_open_document() {
    assert_eq!(toolbar_views(None, false, false), vec![]);
    assert_eq!(
        toolbar_views(Some(false), false, false),
        vec![AppView::Files, AppView::Sectors, AppView::DiskMap, AppView::Stats]
    );
    assert_eq!(toolbar_views(Some(true), false, false), vec![AppView::Files, AppView::Sectors, AppView::Stats]);
    assert_eq!(
        toolbar_views(Some(false), true, false),
        vec![AppView::Files, AppView::Sectors, AppView::DiskMap, AppView::Stats, AppView::Analyze]
    );
    assert_eq!(toolbar_views(None, false, true), vec![AppView::Files, AppView::Blocks]);
}

#[test]
fn viewer_tabs_add_archive_for_archives() {
    let plain = vec![ViewMode::Info, ViewMode::Hex, ViewMode::Text, ViewMode::Basic, ViewMode::Disasm, ViewMode::Screen];
    assert_eq!(viewer_modes(false), plain);
    let mut with_archive = plain.clone();
    with_archive.push(ViewMode::Archive);
    assert_eq!(viewer_modes(true), with_archive);
}

#[test]
fn hex_editing_needs_a_writable_disk_and_a_small_file() {
    assert_eq!(MAX_HEX_EDIT_BYTES, 32 * 1024);
    assert!(can_edit_hex(true, 32 * 1024));
    assert!(!can_edit_hex(true, 32 * 1024 + 1));
    assert!(!can_edit_hex(false, 10));
}

#[test]
fn copy_and_find_depend_on_the_tab() {
    assert!(shows_copy_button(true, ViewMode::Hex));
    assert!(!shows_copy_button(true, ViewMode::Screen));
    assert!(!shows_copy_button(true, ViewMode::Archive));
    assert!(!shows_copy_button(false, ViewMode::Text));
    assert!(shows_find_bar(true, ViewMode::Screen));
    assert!(!shows_find_bar(true, ViewMode::Archive));
    assert!(!shows_find_bar(false, ViewMode::Hex));
}

#[test]
fn match_counter_is_one_based() {
    assert_eq!(match_counter(0, 12), "1/12");
    assert_eq!(match_counter(11, 12), "12/12");
}

#[test]
fn screenshot_automation_applies_then_snaps() {
    assert_eq!(shoot_tick(0), (1, ShootAction::Wait));
    assert_eq!(shoot_tick(11), (12, ShootAction::ApplyOverrides));
    assert_eq!(shoot_tick(12), (13, ShootAction::Wait));
    assert_eq!(shoot_tick(29), (30, ShootAction::RequestScreenshot));
    assert_eq!(shoot_tick(30), (31, ShootAction::Wait));
    let mut frame = 0;
    let mut actions = Vec::new();
    for _ in 0..40 {
        let (next, action) = shoot_tick(frame);
        frame = next;
        if action != ShootAction::Wait {
            actions.push((frame, action));
        }
    }
    assert_eq!(actions, vec![(12, ShootAction::ApplyOverrides), (30, ShootAction::RequestScreenshot)]);
}
