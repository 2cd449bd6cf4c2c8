use mediaexplorer_gui::inspector::{fcb_drive_text, inspector_rows};

fn rows(bytes: &[u8], origin: usize, ch: char) -> Vec<(String, String)> {
    inspector_rows(bytes, origin, ch)
}

fn pair(a: &str, b: &str) -> (String, String) {
    (a.to_string(), b.to_string())
}

#[test]
fn inspector_reads_every_width_little_endian() {
    let got = rows(&[0x00, 0xFE, 0xFF, 0x01, 0x80], 1, '?');
    assert_eq!(
        got,
        vec![
            pair("u8", "254"),
            pair("i8", "-2"),
            pair("hex", "0xFE"),
            pair("binary", "11111110"),
            pair("char", "?"),
            pair("u16 (LE)", "65534"),
            pair("i16 (LE)", "-2"),
            pair("u24 (LE)", "131070"),
            pair("u32 (LE)", "2147614718"),
        ]
    );
}

#[test]
fn inspector_stops_at_the_end_of_the_data() {
    let got = rows(&[0x41, 0x05], 1, '\u{2663}');
    assert_eq!(got, vec![pair("u8", "5"), pair("i8", "5"), pair("hex", "0x05"), pair("binary", "00000101"), pair("char", "\u{2663}")]);
    let got = rows(&[0x34, 0x12], 0, '4');
    assert_eq!(got[5], pair("u16 (LE)", "4660"));
    assert_eq!(got[6], pair("i16 (LE)", "4660"));
    assert_eq!(got.len(), 7);
}

#[test]
fn inspector_has_nothing_past_the_end() {
    assert!(rows(&[1, 2, 3], 3, ' ').is_empty());
    assert!(rows(&[1, 2, 3], 10, ' ').is_empty());
    assert!(rows(&[], 0, ' ').is_empty());
}

#[test]
fn signed_extremes() {
    let got = rows(&[0x80, 0x00, 0x80], 0, ' ');
    assert_eq!(got[1], pair("i8", "-128"));
    assert_eq!(got[5], pair("u16 (LE)", "128"));
    let got = rows(&[0x00, 0x80], 0, ' ');
    assert_eq!(got[6], pair("i16 (LE)", "-32768"));
    let got = rows(&[0x7F, 0xFF], 0, ' ');
    assert_eq!(got[1], pair("i8", "127"));
    assert_eq!(got[6], pair("i16 (LE)", "-129"));
}

#[test]
fn fcb_drive_names_the_letter() {
    assert_eq!(fcb_drive_text(0), None);
    assert_eq!(fcb_drive_text(1).as_deref(), Some("1 (A:)"));
    assert_eq!(fcb_drive_text(8).as_deref(), Some("8 (H:)"));
}
