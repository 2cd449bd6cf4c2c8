use mediaexplorer_gui::i18n::Lang;
use mediaexplorer_gui::settings::{ByteGrouping, HexViewOptions, Settings, MAX_RECENT};

fn paths(v: &[&str]) -> Vec<String> {
    v.iter().map(|s| s.to_string()).collect()
}

#[test]
fn push_recent_moves_existing_to_front_without_duplicating() {
    let mut s = Settings::default();
    s.push_recent("/a.dsk");
    s.push_recent("/b.dsk");
    s.push_recent("/a.dsk");
    assert_eq!(s.recent, paths(&["/a.dsk", "/b.dsk"]));
}

#[test]
fn push_recent_caps_at_max() {
    let mut s = Settings::default();
    for i in 0..(MAX_RECENT + 5) {
        s.push_recent(&format!("/disk{i}.dsk"));
    }
    assert_eq!(s.recent.len(), MAX_RECENT);
    assert_eq!(s.recent[0], "/disk14.dsk");
}

#[test]
fn clear_recent_empties_the_list() {
    let mut s = Settings::default();
    s.push_recent("/a.dsk");
    s.clear_recent();
    assert!(s.recent.is_empty());
}

#[test]
fn merge_recent_unions_keeping_own_order_first() {
    let mut s = Settings::default();
    s.push_recent("/b.dsk");
    s.push_recent("/a.dsk");
    s.merge_recent(&paths(&["/c.dsk", "/b.dsk"]));
    assert_eq!(s.recent, paths(&["/a.dsk", "/b.dsk", "/c.dsk"]));
}

#[test]
fn merge_recent_caps_at_max() {
    let mut s = Settings::default();
    for i in 0..MAX_RECENT {
        s.push_recent(&format!("/own{i}.dsk"));
    }
    let other: Vec<String> = (0..5).map(|i| format!("/o{i}.dsk")).collect();
    s.merge_recent(&other);
    assert_eq!(s.recent.len(), MAX_RECENT);
    assert!(s.recent.iter().all(|p| p.starts_with("/own")));
}

#[test]
fn merge_recent_with_empty_other_is_a_noop() {
    let mut s = Settings::default();
    s.push_recent("/a.dsk");
    let before = s.recent.clone();
    s.merge_recent(&[]);
    assert_eq!(s.recent, before);
}

#[test]
fn grouping_size_clamps_and_reports_none() {
    assert_eq!(ByteGrouping::Ungrouped.size(), None);
    assert_eq!(ByteGrouping::Of(4).size(), Some(4));
    assert_eq!(ByteGrouping::Of(0).size(), Some(1));
}

#[test]
fn defaults_match_the_classic_view() {
    let s = Settings::default();
    assert!(s.recent.is_empty());
    assert!(s.show_status_bar);
    assert_eq!(s.language, None::<Lang>);
    assert!(s.check_for_updates);
    assert_eq!(s.last_update_check, None);
    let h = HexViewOptions::default();
    assert!(h.show_line_numbers && h.line_number_hex && h.show_hex && h.show_ascii && h.show_columns);
    assert_eq!(h.bytes_per_row, 16);
    assert_eq!(h.grouping, ByteGrouping::Of(1));
    assert!(!h.hide_null_bytes);
    assert_eq!(s.hex, h);
}

#[test]
fn pushing_the_newest_again_changes_nothing() {
    let mut s = Settings::default();
    s.push_recent("/a.dsk");
    s.push_recent("/b.dsk");
    let before = s.recent.clone();
    s.push_recent("/b.dsk");
    assert_eq!(s.recent, before);
}

#[test]
fn merge_skips_duplicates_within_the_other_list() {
    let mut s = Settings::default();
    s.push_recent("/a.dsk");
    s.merge_recent(&paths(&["/x.dsk", "/x.dsk", "/a.dsk"]));
    assert_eq!(s.recent, paths(&["/a.dsk", "/x.dsk"]));
}

#[test]
fn forget_recent_drops_a_missing_path_only() {
    let mut s = Settings::default();
    s.push_recent("/c.dsk");
    s.push_recent("/b.dsk");
    s.push_recent("/a.dsk");
    s.forget_recent("/b.dsk");
    assert_eq!(s.recent, paths(&["/a.dsk", "/c.dsk"]));
    s.forget_recent("/zzz.dsk");
    assert_eq!(s.recent, paths(&["/a.dsk", "/c.dsk"]));
}
