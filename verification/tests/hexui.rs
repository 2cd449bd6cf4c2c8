use mediaexplorer_gui::hexui::hex_gesture_at;
use mediaexplorer_gui::hexui::format_selected_bytes;
use mediaexplorer_gui::hexui::selected_bytes_text;
use mediaexplorer_gui::hexlayout::{HexLayout, HexRegion};
use mediaexplorer_gui::hexui::{apply_hex_gesture, hex_config, normalize, parse_offset, place, HexGesture, HexUiState};
use mediaexplorer_gui::settings::{ByteGrouping, HexViewOptions};

#[test]
fn normalize_orders_endpoints() {
    assert_eq!(normalize(5, 2), (2, 5));
    assert_eq!(normalize(2, 5), (2, 5));
    assert_eq!(normalize(7, 7), (7, 7));
}

#[test]
fn parse_offset_accepts_hex_forms() {
    assert_eq!(parse_offset("1A0"), Some(0x1A0));
    assert_eq!(parse_offset("0x1a0"), Some(0x1A0));
    assert_eq!(parse_offset("  0X10 "), Some(0x10));
    assert_eq!(parse_offset(""), None);
    assert_eq!(parse_offset("xyz"), None);
}

#[test]
fn parse_offset_rejects_a_bare_prefix_and_overflow() {
    assert_eq!(parse_offset("0x"), None);
    assert_eq!(parse_offset("+10"), Some(0x10));
    assert_eq!(parse_offset("1FFFFFFFFFFFFFFFF"), None);
}

#[test]
fn hex_gesture_updates_selection_state() {
    let mut hs = HexUiState::default();
    apply_hex_gesture(&mut hs, HexGesture::Click { byte: 4, shift: false, region: HexRegion::Hex });
    assert_eq!(hs.cursor, Some(4));
    assert_eq!(hs.selection, None);
    assert_eq!(hs.region, HexRegion::Hex);
    apply_hex_gesture(&mut hs, HexGesture::Click { byte: 9, shift: true, region: HexRegion::Ascii });
    assert_eq!(hs.selection, Some((4, 9)));
    assert_eq!(hs.region, HexRegion::Ascii);
    apply_hex_gesture(&mut hs, HexGesture::DragStart { byte: 20, region: HexRegion::Ascii });
    apply_hex_gesture(&mut hs, HexGesture::DragTo(12));
    assert_eq!(hs.selection, Some((12, 20)));
    assert_eq!(hs.region, HexRegion::Ascii);
}

#[test]
fn clear_selection_forgets_cursor_and_range() {
    let mut hs = HexUiState::default();
    apply_hex_gesture(&mut hs, HexGesture::Click { byte: 4, shift: false, region: HexRegion::Hex });
    apply_hex_gesture(&mut hs, HexGesture::Click { byte: 2, shift: true, region: HexRegion::Hex });
    assert_eq!(hs.selection, Some((2, 4)));
    hs.clear_selection();
    assert_eq!(hs.cursor, None);
    assert_eq!(hs.selection, None);
}

#[test]
fn place_overwrites_and_clips() {
    let mut buf = vec!['.'; 6];
    place(&mut buf, 4, "ABC");
    assert_eq!(buf.iter().collect::<String>(), "....AB");
    place(&mut buf, 9, "Z");
    assert_eq!(buf.iter().collect::<String>(), "....AB");
    place(&mut buf, 0, "xy");
    assert_eq!(buf.iter().collect::<String>(), "xy..AB");
}

#[test]
fn clipboard_config_mirrors_the_view() {
    let opts = HexViewOptions { bytes_per_row: 0, grouping: ByteGrouping::Ungrouped, ..HexViewOptions::default() };
    let c = hex_config(&opts);
    assert_eq!(c.bytes_per_row, 1);
    assert_eq!(c.base_address, 0);
    assert_eq!(c.grouping, None);
    assert!(c.show_hex && c.show_ascii && c.show_line_numbers);
}

fn small_options() -> HexViewOptions {
    HexViewOptions { bytes_per_row: 4, ..HexViewOptions::default() }
}

#[test]
fn header_line_labels_each_column_over_its_cell() {
    let l = HexLayout::new(&small_options(), 4, 0);
    assert_eq!(l.total_cols(), 24);
    assert_eq!(l.header_line(), format!("{:<24}", "Offset  00 01 02 03"));
    let wide = HexLayout::new(&HexViewOptions::default(), 16, 0);
    assert!(wide.header_line().contains(" 09 0A 0B "));
    let dec = HexViewOptions { line_number_hex: false, ..HexViewOptions::default() };
    let wide = HexLayout::new(&dec, 16, 0);
    assert!(wide.header_line().contains(" 09 10 11 "));
}

#[test]
fn header_line_without_gutter_starts_with_the_labels() {
    let opts = HexViewOptions { show_line_numbers: false, ..small_options() };
    let l = HexLayout::new(&opts, 4, 0);
    assert_eq!(l.header_line(), format!("{:<16}", "00 01 02 03"));
}

#[test]
fn row_text_places_address_hex_and_gutter() {
    let l = HexLayout::new(&small_options(), 4, 0x20);
    let r = l.row_text(&[0x41, 0x00, 0xFF], 0x10, false, &['A', '.', '.']);
    assert_eq!(r.line, format!("{:<24}", "000010  41 00 FF    A.."));
    assert!(r.uniform);
    assert_eq!(r.gutter, vec!['A', '.', '.']);
}

#[test]
fn row_text_hides_nulls_and_leaves_wide_glyphs_out() {
    let opts = HexViewOptions { hide_null_bytes: true, ..small_options() };
    let l = HexLayout::new(&opts, 4, 0);
    let r = l.row_text(&[0x41, 0x00], 0, true, &['A', '@']);
    assert_eq!(r.line, format!("{:<24}", "000000  41          A"));
    assert_eq!(r.gutter, vec!['A', ' ']);
    let r = l.row_text(&[0xB1], 0, true, &['\u{FF71}']);
    assert!(!r.uniform);
    assert_eq!(r.line, format!("{:<24}", "000000  B1"));
}

#[test]
fn row_text_without_gutter_has_no_gutter_chars() {
    let opts = HexViewOptions { show_ascii: false, ..small_options() };
    let l = HexLayout::new(&opts, 4, 0);
    let r = l.row_text(&[1, 2, 3, 4], 4, false, &['a', 'b', 'c', 'd']);
    assert!(r.gutter.is_empty());
    assert!(r.uniform);
    assert_eq!(r.line, "000004  01 02 03 04");
}

use mediaexplorer_gui::hexui::{goto_offset, goto_status, selection_span, GotoOutcome};

#[test]
fn goto_resolves_offset_and_row() {
    assert_eq!(goto_offset("1A0", 0x400, 16), GotoOutcome::Jump { offset: 0x1A0, row: 0x1A });
    assert_eq!(goto_offset("0x400", 0x400, 16), GotoOutcome::PastEnd { offset: 0x400 });
    assert_eq!(goto_offset("zz", 0x400, 16), GotoOutcome::NotAnOffset);
    assert_eq!(goto_offset("20", 0x400, 0), GotoOutcome::Jump { offset: 0x20, row: 0x20 });
}

#[test]
fn goto_status_texts() {
    assert_eq!(goto_status(GotoOutcome::NotAnOffset, 10), "Enter a hex offset, e.g. 1A0");
    assert_eq!(goto_status(GotoOutcome::PastEnd { offset: 0x1F }, 16), "Offset 0x1F is past the end (16 bytes)");
    assert_eq!(goto_status(GotoOutcome::Jump { offset: 0x1A0, row: 26 }, 1024), "Jumped to 0x0001A0");
}

#[test]
fn copy_span_cuts_the_selection_at_the_data_end() {
    assert_eq!(selection_span(None, 10), None);
    assert_eq!(selection_span(Some((2, 5)), 10), Some((2, 6)));
    assert_eq!(selection_span(Some((2, 50)), 10), Some((2, 10)));
    assert_eq!(selection_span(Some((10, 12)), 10), Some((10, 10)));
    assert_eq!(selection_span(Some((11, 12)), 10), None);
    assert_eq!(selection_span(Some((0, 0)), 0), None);
}

#[test]
fn bookmarks_add_jump_and_remove() {
    let mut hs = HexUiState::default();
    assert!(!hs.add_bookmark());
    assert!(hs.bookmarks.is_empty());
    apply_hex_gesture(&mut hs, HexGesture::Click { byte: 0x1A0, shift: false, region: HexRegion::Hex });
    assert!(hs.add_bookmark());
    assert_eq!(hs.bookmarks.len(), 1);
    assert_eq!(hs.bookmarks[0].offset, 0x1A0);
    assert_eq!(hs.bookmarks[0].name, "0x0001A0");
    apply_hex_gesture(&mut hs, HexGesture::Click { byte: 3, shift: false, region: HexRegion::Hex });
    apply_hex_gesture(&mut hs, HexGesture::Click { byte: 9, shift: true, region: HexRegion::Hex });
    assert_eq!(hs.jump_to_bookmark(0, 16), Some(0x1A));
    assert_eq!(hs.cursor, Some(0x1A0));
    assert_eq!(hs.selection, None);
    assert_eq!(hs.jump_to_bookmark(5, 16), None);
    hs.remove_bookmark(3);
    assert_eq!(hs.bookmarks.len(), 1);
    hs.remove_bookmark(0);
    assert!(hs.bookmarks.is_empty());
}

#[test]
fn selected_bytes_as_hex_or_characters() {
    assert_eq!(format_selected_bytes(&[0x41, 0x0C, 0xFF], false, &['A', '♀', 'ÿ']), "41 0C FF");
    assert_eq!(format_selected_bytes(&[0x41, 0x0C, 0xFF], true, &['A', '♀', 'ÿ']), "A♀ÿ");
    assert_eq!(format_selected_bytes(&[], false, &[]), "");
}

#[test]
fn selection_copy_clamps_to_the_content() {
    let bytes = [0x10u8, 0x20, 0x30, 0x40];
    let decoded = ['a', 'b', 'c', 'd'];
    assert_eq!(selected_bytes_text(&bytes, Some((1, 2)), false, &decoded), Some("20 30".to_string()));
    assert_eq!(selected_bytes_text(&bytes, Some((2, 99)), true, &decoded), Some("cd".to_string()));
    assert_eq!(selected_bytes_text(&bytes, None, false, &decoded), None);
    assert_eq!(selected_bytes_text(&bytes, Some((9, 12)), false, &decoded), None);
    assert_eq!(selected_bytes_text(&[], Some((0, 0)), false, &[]), None);
}

#[test]
fn pointer_on_a_byte_makes_a_gesture() {
    let l = HexLayout::new(&HexViewOptions::default(), 16, 0x100);
    let hex2 = l.hex_cell_col(2).unwrap();
    let ascii5 = l.ascii_cell_col(5).unwrap();
    assert_eq!(
        hex_gesture_at(&l, 1, hex2, 100, false, false, true, true),
        Some(HexGesture::Click { byte: 18, shift: true, region: HexRegion::Hex })
    );
    assert_eq!(
        hex_gesture_at(&l, 0, ascii5, 100, true, true, true, false),
        Some(HexGesture::DragStart { byte: 5, region: HexRegion::Ascii })
    );
    assert_eq!(hex_gesture_at(&l, 3, hex2 + 1, 100, false, true, true, false), Some(HexGesture::DragTo(50)));
    assert_eq!(hex_gesture_at(&l, 0, hex2, 100, false, false, false, false), None);
}

#[test]
fn pointer_past_the_data_or_on_the_gutter_makes_none() {
    let l = HexLayout::new(&HexViewOptions::default(), 16, 0x100);
    let hex2 = l.hex_cell_col(2).unwrap();
    assert_eq!(hex_gesture_at(&l, 7, hex2, 100, false, false, true, false), None);
    assert_eq!(hex_gesture_at(&l, 0, 0, 100, false, false, true, false), None);
    assert_eq!(hex_gesture_at(&l, usize::MAX, hex2, usize::MAX, false, false, true, false), None);
}
