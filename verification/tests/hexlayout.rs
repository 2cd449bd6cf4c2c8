use mediaexplorer_gui::hexlayout::{HexLayout, HexRegion};
use mediaexplorer_gui::settings::{ByteGrouping, HexViewOptions};

fn defaults() -> HexViewOptions {
    HexViewOptions::default()
}

#[test]
fn default_group_of_one_spaces_each_byte() {
    let l = HexLayout::new(&defaults(), 16, 0x100);
    assert_eq!(l.hex_cell_col(0), Some(8));
    assert_eq!(l.hex_cell_col(1), Some(11));
    assert_eq!(l.hex_cell_col(15), Some(8 + 15 * 3));
    assert_eq!(l.ascii_cell_col(0), Some(8 + 32 + 15 + 1));
    assert_eq!(l.total_cols(), 8 + 32 + 15 + 1 + 16);
    assert_eq!(l.format_addr(0), "000000");
    assert_eq!(l.format_addr(0x1234), "001234");
}

#[test]
fn ungrouped_packs_bytes_contiguously() {
    let opts = HexViewOptions {
        grouping: ByteGrouping::Ungrouped,
        ..defaults()
    };
    let l = HexLayout::new(&opts, 16, 0);
    assert_eq!(l.hex_cell_col(0), Some(8));
    assert_eq!(l.hex_cell_col(1), Some(10));
    assert_eq!(l.hex_cell_col(2), Some(12));
    assert_eq!(l.byte_at_char(10), Some((1, HexRegion::Hex)));
    assert_eq!(l.byte_at_char(11), Some((1, HexRegion::Hex)));
    assert_eq!(l.ascii_cell_col(0), Some(8 + 32 + 1));
}

#[test]
fn click_round_trips_to_byte_in_default_layout() {
    let l = HexLayout::new(&defaults(), 16, 0);
    for col in 0..16 {
        let hx = l.hex_cell_col(col).unwrap();
        assert_eq!(l.byte_at_char(hx), Some((col, HexRegion::Hex)));
        assert_eq!(l.byte_at_char(hx + 1), Some((col, HexRegion::Hex)));
        if col < 15 {
            assert_eq!(l.byte_at_char(hx + 2), Some((col, HexRegion::Hex)));
        }
        let ax = l.ascii_cell_col(col).unwrap();
        assert_eq!(l.byte_at_char(ax), Some((col, HexRegion::Ascii)));
    }
    assert_eq!(l.byte_at_char(0), None);
    assert_eq!(l.byte_at_char(8 + 32 + 15), None);
}

#[test]
fn hidden_line_numbers_remove_the_gutter() {
    let opts = HexViewOptions {
        show_line_numbers: false,
        ..defaults()
    };
    let l = HexLayout::new(&opts, 16, 0);
    assert!(!l.show_line_numbers());
    assert_eq!(l.hex_cell_col(0), Some(0));
}

#[test]
fn hidden_hex_puts_ascii_after_the_gutter() {
    let opts = HexViewOptions {
        show_hex: false,
        ..defaults()
    };
    let l = HexLayout::new(&opts, 16, 0);
    assert_eq!(l.hex_cell_col(0), None);
    assert_eq!(l.ascii_cell_col(0), Some(8));
    assert_eq!(l.byte_at_char(8), Some((0, HexRegion::Ascii)));
    assert_eq!(l.total_cols(), 8 + 16);
}

#[test]
fn hidden_ascii_drops_the_gutter_and_rejects_clicks_past_hex() {
    let opts = HexViewOptions {
        show_ascii: false,
        ..defaults()
    };
    let l = HexLayout::new(&opts, 16, 0);
    assert_eq!(l.ascii_cell_col(0), None);
    assert_eq!(l.total_cols(), 8 + 32 + 15);
    assert_eq!(l.byte_at_char(8 + 32 + 15 + 5), None);
}

#[test]
fn grouping_clusters_bytes_and_still_round_trips() {
    let opts = HexViewOptions {
        grouping: ByteGrouping::Of(4),
        ..defaults()
    };
    let l = HexLayout::new(&opts, 16, 0);
    assert_eq!(l.hex_cell_col(4), Some(8 + 4 * 2 + 1));
    assert_eq!(l.hex_cell_col(8), Some(8 + 8 * 2 + 2));
    assert_eq!(l.hex_cell_col(12), Some(8 + 12 * 2 + 3));
    for col in 0..16 {
        let hx = l.hex_cell_col(col).unwrap();
        assert_eq!(l.byte_at_char(hx), Some((col, HexRegion::Hex)));
    }
    assert_eq!(l.ascii_cell_col(0), Some(8 + 32 + 3 + 1));
}

#[test]
fn decimal_addresses_size_and_format_the_gutter() {
    let opts = HexViewOptions {
        line_number_hex: false,
        ..defaults()
    };
    let l = HexLayout::new(&opts, 16, 737_280);
    assert_eq!(l.hex_cell_col(0), Some(8));
    assert_eq!(l.format_addr(512), "000512");
    let big = HexLayout::new(&opts, 16, 12_345_678);
    assert_eq!(big.format_addr(12_345_678), "12345678");
}

#[test]
fn zero_bytes_per_row_is_treated_as_one() {
    let l = HexLayout::new(&defaults(), 0, 0);
    // One byte: 8-column gutter, 2 digits, the gap, one ASCII cell.
    assert_eq!(l.total_cols(), 8 + 2 + 1 + 1);
    assert_eq!(l.byte_at_char(9), Some((0, HexRegion::Hex)));
    assert_eq!(l.byte_at_char(10), None);
    assert_eq!(l.byte_at_char(11), Some((0, HexRegion::Ascii)));
    assert_eq!(l.byte_at_char(12), None);
}

#[test]
fn hex_addresses_widen_the_gutter_past_six_digits() {
    let l = HexLayout::new(&defaults(), 8, 0x1234567);
    assert_eq!(l.format_addr(0xAB), "00000AB");
    assert_eq!(l.hex_cell_col(0), Some(9));
}

#[test]
fn separator_clicks_map_to_the_preceding_byte_when_grouped() {
    let opts = HexViewOptions {
        grouping: ByteGrouping::Of(2),
        ..defaults()
    };
    let l = HexLayout::new(&opts, 4, 0);
    // Cells at 8, 10, 13, 15; the space at 12 belongs to byte 1.
    assert_eq!(l.byte_at_char(12), Some((1, HexRegion::Hex)));
    assert_eq!(l.byte_at_char(13), Some((2, HexRegion::Hex)));
    assert_eq!(l.byte_at_char(16), Some((3, HexRegion::Hex)));
    assert_eq!(l.byte_at_char(17), None);
}

#[test]
fn gutter_addresses_have_fixed_width_and_parse_back() {
    let l = HexLayout::new(&defaults(), 16, 0x1234567);
    for addr in [0usize, 0xABC, 0x1234567] {
        let s = l.format_addr(addr);
        assert_eq!(s.len(), 7);
        assert!(s.chars().all(|c| c.is_ascii_digit() || ('A'..='F').contains(&c)));
        assert_eq!(usize::from_str_radix(&s, 16), Ok(addr));
    }
    let dec = HexViewOptions { line_number_hex: false, ..defaults() };
    let l = HexLayout::new(&dec, 16, 99);
    assert_eq!(l.format_addr(42), "000042");
    assert_eq!(usize::from_str_radix(&l.format_addr(42), 10), Ok(42));
}

#[test]
fn row_regions_follow_each_other() {
    let l = HexLayout::new(&defaults(), 16, 0x100);
    assert_eq!(l.hex_cell_col(0), Some(8));
    assert_eq!(l.ascii_cell_col(0).unwrap(), l.hex_cell_col(15).unwrap() + 3);
    assert_eq!(l.total_cols(), l.ascii_cell_col(15).unwrap() + 1);
}
