use mediaexplorer_gui::sector_view::{clamp_sector, sector_position_text, step_sector};

#[test]
fn sector_past_the_end_shows_the_last_one() {
    assert_eq!(clamp_sector(5000, 1440), 1439);
    assert_eq!(clamp_sector(1440, 1440), 1439);
    assert_eq!(clamp_sector(3, 1440), 3);
    assert_eq!(clamp_sector(0, 1), 0);
}

#[test]
fn arrow_buttons_step_and_stop_at_the_ends() {
    assert_eq!(step_sector(4, 10, true), 5);
    assert_eq!(step_sector(4, 10, false), 3);
    assert_eq!(step_sector(9, 10, true), 9);
    assert_eq!(step_sector(0, 10, false), 0);
    assert_eq!(step_sector(usize::MAX, 10, true), usize::MAX);
    assert_eq!(step_sector(step_sector(7, 10, true), 10, false), 7);
}

#[test]
fn position_line_shows_count_and_byte_offset() {
    assert_eq!(sector_position_text(1, 1440), "/ 1440    offset 0x000200");
    assert_eq!(sector_position_text(0, 720), "/ 720    offset 0x000000");
    assert_eq!(sector_position_text(0xFF, 1440), "/ 1440    offset 0x01FE00");
    assert_eq!(sector_position_text(0x10000, 0x20000), "/ 131072    offset 0x2000000");
    assert_eq!(sector_position_text(1, 1440), format!("/ {}    offset {:#08X}", 1440, 512));
}
