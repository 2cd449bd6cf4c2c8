use mediaexplorer_gui::render::describe_hard_disk;
use mediaexplorer_gui::render::{size_label, SIZE_360K, SIZE_720K};
use mediaexplorer_gui::entry::{Attributes, DirEntry, Timestamp};
use mediaexplorer_gui::render::{
    describe_geometry, empty_fat_message, file_row_columns, format_attributes, format_dmk_track_row,
    format_file_row, format_hex_for_edit, format_timestamp, size_notice, type_table_header, type_table_line,
    Density, DmkSectorInfo,
    DmkTrackInfo, Geometry, FILE_ROW_CHARS, NAME_FIELD_CHARS,
};

fn file_entry(name: &str, size: u64, attributes: Attributes, modified: Option<Timestamp>) -> DirEntry {
    DirEntry {
        name: name.to_string(),
        path: name.to_string(),
        is_dir: false,
        size,
        attributes,
        modified,
        children: Vec::new(),
    }
}

fn march_1991() -> Timestamp {
    Timestamp { year: 1991, month: 3, day: 25, hour: 14, minute: 30 }
}

fn all_flags() -> Attributes {
    Attributes { read_only: true, hidden: true, system: true, archive: true }
}

#[test]
fn app_attributes_render_as_rhsa_flags() {
    assert_eq!(format_attributes(Attributes::default()), "----");
    assert_eq!(format_attributes(Attributes { read_only: true, archive: true, ..Attributes::default() }), "R--A");
    assert_eq!(format_attributes(all_flags()), "RHSA");
}

#[test]
fn tests_attributes_render_as_rhsa_flags() {
    assert_eq!(format_attributes(Attributes::default()), "----");
    assert_eq!(format_attributes(Attributes { read_only: true, archive: true, ..Attributes::default() }), "R--A");
    assert_eq!(format_attributes(all_flags()), "RHSA");
}

#[test]
fn app_timestamp_formats_iso_minute_or_empty() {
    assert_eq!(format_timestamp(Some(march_1991())), "1991-03-25 14:30");
    assert_eq!(format_timestamp(None), "");
}

#[test]
fn tests_timestamp_formats_iso_minute_or_empty() {
    assert_eq!(format_timestamp(Some(march_1991())), "1991-03-25 14:30");
    assert_eq!(format_timestamp(None), "");
}

#[test]
fn app_file_row_always_includes_date_and_attributes() {
    let e = file_entry("GAME.COM", 1234, Attributes { archive: true, ..Attributes::default() }, Some(march_1991()));
    let row = format_file_row(&e, &e.name);
    assert!(row.starts_with(&format!("{:<14} {:>8}", "GAME.COM", 1234u64)));
    assert!(row.contains("1991-03-25 14:30"), "row: {row}");
    assert!(row.trim_end().ends_with("---A"), "row: {row}");
}

#[test]
fn tests_file_row_always_includes_date_and_attributes() {
    let e = file_entry("GAME.COM", 1234, Attributes { archive: true, ..Attributes::default() }, Some(march_1991()));
    let cols = file_row_columns(&e);
    assert!(cols.starts_with(&format!("{:>8}", 1234u64)), "cols: {cols}");
    assert!(cols.contains("1991-03-25 14:30"), "cols: {cols}");
    assert!(cols.trim_end().ends_with("---A"), "cols: {cols}");
}

fn widest() -> DirEntry {
    file_entry(
        "ABCDEFGH.IJK",
        99_999_999,
        all_flags(),
        Some(Timestamp { year: 9999, month: 12, day: 31, hour: 23, minute: 59 }),
    )
}

#[test]
fn app_file_row_width_matches_panel_sizing_constant() {
    let e = widest();
    let row = format_file_row(&e, &e.name);
    assert_eq!(row.chars().count(), FILE_ROW_CHARS, "row: {row:?}");
}

#[test]
fn tests_file_row_width_matches_panel_sizing_constant() {
    let cols = file_row_columns(&widest());
    assert_eq!(NAME_FIELD_CHARS + cols.chars().count(), FILE_ROW_CHARS, "cols: {cols:?}");
}

#[test]
fn app_file_row_keeps_columns_when_timestamp_absent() {
    let e = file_entry("GAME.COM", 1234, Attributes::default(), None);
    let row = format_file_row(&e, &e.name);
    assert!(row.starts_with(&format!("{:<14} {:>8}", "GAME.COM", 1234u64)));
    assert!(row.trim_end().ends_with("----"), "row: {row}");
}

#[test]
fn tests_file_row_keeps_columns_when_timestamp_absent() {
    let e = file_entry("GAME.COM", 1234, Attributes::default(), None);
    let cols = file_row_columns(&e);
    assert!(cols.starts_with(&format!("{:>8}", 1234u64)), "cols: {cols}");
    assert!(cols.trim_end().ends_with("----"), "cols: {cols}");
}

#[test]
fn file_row_columns_exact_text() {
    let e = file_entry("X", 7, Attributes { hidden: true, ..Attributes::default() }, Some(march_1991()));
    assert_eq!(file_row_columns(&e), "       7  1991-03-25 14:30  -H--");
    let e = file_entry("X", 7, Attributes::default(), None);
    assert_eq!(file_row_columns(&e), format!("       7  {:16}  ----", ""));
}

#[test]
fn app_empty_fat_message_names_fat_and_points_to_raw_views() {
    let msg = empty_fat_message();
    assert!(msg.to_lowercase().contains("fat"), "msg: {msg}");
    assert!(msg.contains("Sectors"), "msg: {msg}");
}

#[test]
fn tests_empty_fat_message_names_fat_and_points_to_raw_views() {
    let msg = empty_fat_message();
    assert!(msg.to_lowercase().contains("fat"), "msg: {msg}");
    assert!(msg.contains("Sectors"), "msg: {msg}");
}

fn check_standard_descriptions() {
    let desc = describe_geometry(Geometry::ds_720k());
    assert!(desc.starts_with("3.5\" Double Sided, Double Density (2DD)"), "{desc}");
    assert!(desc.contains("2 sides"), "{desc}");
    assert!(desc.contains("80 tracks"), "{desc}");
    assert!(desc.contains("= 737280 bytes (720 kB)"), "{desc}");
    let desc360 = describe_geometry(Geometry::ss_360k());
    assert!(desc360.starts_with("3.5\" Single Sided, Double Density (1DD)"), "{desc360}");
    assert!(desc360.contains("1 side "), "singular: {desc360}");
    assert!(desc360.contains("= 368640 bytes (360 kB)"), "{desc360}");
}

#[test]
fn app_describe_geometry_names_standard_formats() {
    check_standard_descriptions();
}

#[test]
fn tests_describe_geometry_names_standard_formats() {
    check_standard_descriptions();
}

fn check_unknown_description() {
    let odd = Geometry { sides: 2, tracks: 35, sectors_per_track: 8 };
    let desc = describe_geometry(odd);
    // No named form factor, just the arithmetic.
    assert!(!desc.contains('"'), "{desc}");
    assert!(desc.starts_with("2 sides \u{00D7} 35 tracks \u{00D7} 8 sectors/track"), "{desc}");
}

#[test]
fn app_describe_geometry_falls_back_to_arithmetic_for_unknown() {
    check_unknown_description();
}

#[test]
fn tests_describe_geometry_falls_back_to_arithmetic_for_unknown() {
    check_unknown_description();
}

#[test]
fn describe_geometry_exact_text() {
    assert_eq!(
        describe_geometry(Geometry::ds_720k()),
        "3.5\" Double Sided, Double Density (2DD): 2 sides \u{00D7} 80 tracks \u{00D7} 9 sectors/track \u{00D7} 512 bytes/sector = 737280 bytes (720 kB)"
    );
    assert_eq!(Geometry::ds_720k().total_bytes(), 737_280);
    assert_eq!(
        describe_geometry(Geometry { sides: 2, tracks: 40, sectors_per_track: 9 }),
        "5.25\" Double Sided, Double Density (DS,DD): 2 sides \u{00D7} 40 tracks \u{00D7} 9 sectors/track \u{00D7} 512 bytes/sector = 368640 bytes (360 kB)"
    );
}

#[test]
fn hex_for_edit_wraps_every_sixteen_bytes() {
    let bytes: Vec<u8> = (0u8..18).collect();
    assert_eq!(
        format_hex_for_edit(&bytes),
        "00 01 02 03 04 05 06 07 08 09 0A 0B 0C 0D 0E 0F\n10 11"
    );
    assert_eq!(format_hex_for_edit(&[]), "");
}

#[test]
fn size_notice_names_both_sizes() {
    assert_eq!(size_notice(131072, 200000), "Showing first 128 kB of 195 kB.");
}

fn sector(size: usize, density: Density, ok: bool) -> DmkSectorInfo {
    DmkSectorInfo { size, density, id_crc_ok: ok, data_crc_ok: true }
}

#[test]
fn dmk_rows_show_shape_density_and_crc_state() {
    let t = DmkTrackInfo { track: 3, side: 1, sectors: vec![sector(512, Density::Mfm, true); 9] };
    assert_eq!(format_dmk_track_row(&t, true), "3     1    9       512  MFM  ok    standard");
    let mut bad = vec![sector(256, Density::Fm, false); 2];
    bad.push(sector(256, Density::Fm, true));
    let t = DmkTrackInfo { track: 40, side: 0, sectors: bad };
    assert_eq!(format_dmk_track_row(&t, false), "40    0    3       256  FM   2 bad non-standard");
    let t = DmkTrackInfo { track: 81, side: 1, sectors: Vec::new() };
    assert_eq!(format_dmk_track_row(&t, true), "81    1    0       0    -    -     empty");
}

#[test]
fn file_type_table_rows_line_up() {
    assert_eq!(type_table_header(), format!("{:<7} {:>5} {:>12}  {}", "Ext", "Count", "Bytes", "Description"));
    assert_eq!(
        type_table_line("COM", 3, 12345, Some("MSX-DOS program")),
        format!("{:<7} {:>5} {:>12}  {}", "COM", 3, 12345, "MSX-DOS program")
    );
    assert_eq!(type_table_line("", 1, 7, None), format!("{:<7} {:>5} {:>12}  ", "(none)", 1, 7));
    assert_eq!(type_table_line("\u{1a}B", 2, 0, None), "?B          2            0  ");
}

#[test]
fn size_label_names_the_standard_sizes() {
    assert_eq!(size_label(SIZE_360K), "360 kB (single-sided)");
    assert_eq!(size_label(SIZE_720K), "720 kB (double-sided)");
    assert_eq!(size_label(368640), "360 kB (single-sided)");
    assert_eq!(size_label(1_474_560), "1440 kB");
    assert_eq!(size_label(1023), "0 kB");
    assert_eq!(size_label(368641), "360 kB");
}

#[test]
fn geometry_counts_sectors() {
    assert_eq!(Geometry::ds_720k().total_sectors(), 1440);
    assert_eq!(Geometry::ss_360k().total_sectors(), 720);
    assert_eq!(Geometry { sides: 0xFFFF, tracks: 0xFFFF, sectors_per_track: 0xFFFF }.total_sectors(), 0xFFFF * 0xFFFF * 0xFFFF);
}

fn labels(items: &[&str]) -> Vec<String> {
    items.iter().map(|s| s.to_string()).collect()
}

#[test]
fn describe_hard_disk_lists_partition_sizes() {
    // 4 x 32 MiB partitions, as on a typical MSX-IDE hard disk; each size is
    // shown as the app-wide decimal size text (33,554,432 bytes = 33.55 MB).
    let desc = describe_hard_disk(&labels(&["33.55 MB"; 4]));
    assert_eq!(
        desc,
        "Hard disk image: 4 partitions (33.55 MB, 33.55 MB, 33.55 MB, 33.55 MB)"
    );
    // Singular, and no fabricated floppy geometry ("sides"/"tracks").
    let one = describe_hard_disk(&labels(&["16.78 MB"]));
    assert_eq!(one, "Hard disk image: 1 partition (16.78 MB)");
    assert!(!one.contains("sides") && !one.contains("tracks"));
    // Degenerate: no readable partitions.
    assert_eq!(describe_hard_disk(&[]), "Hard disk image");
}
