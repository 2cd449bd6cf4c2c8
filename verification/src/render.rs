//! Fixed-width text for the file list, the editable hex text, and the disk
//! descriptions shown in the status bar.
use vstd::prelude::*;

use crate::entry::{Attributes, DirEntry, Timestamp};
use crate::names::{display_ext, safe_ext};
use crate::text::{
    append_chars, append_str, chars_of, digits_of, pad_left, pad_left_vec, pad_right, pad_right_vec,
    radix_digits, string_from_chars,
};

verus! {

/// Monospace character width of a file row's name field, including the gap
/// to the data columns.
pub const NAME_FIELD_CHARS: usize = 15;

/// Character width of a full file row: `name(14) + ' ' + size(8) + "  " +
/// date(16) + "  " + attrs(4)` = 47.
pub const FILE_ROW_CHARS: usize = 47;

/// The four attribute flags as `RHSA`, a `-` for each one that is off.
pub open spec fn attribute_flags(a: Attributes) -> Seq<char> {
    seq![
        if a.read_only { 'R' } else { '-' },
        if a.hidden { 'H' } else { '-' },
        if a.system { 'S' } else { '-' },
        if a.archive { 'A' } else { '-' },
    ]
}

/// Render attributes as `RHSA` flags, `-` for each flag that is off.
pub fn format_attributes(attrs: Attributes) -> (r: String)
    ensures
        r@ == attribute_flags(attrs),
{
    let v = [
        if attrs.read_only { 'R' } else { '-' },
        if attrs.hidden { 'H' } else { '-' },
        if attrs.system { 'S' } else { '-' },
        if attrs.archive { 'A' } else { '-' },
    ];
    proof {
        assert(v@ =~= attribute_flags(attrs));
    }
    string_from_chars(v.as_slice())
}

/// `n` in decimal, zero-padded on the left to `w` digits.
pub open spec fn zero_padded(n: nat, w: nat) -> Seq<char> {
    pad_left(digits_of(n, 10), w, '0')
}

/// A timestamp as `YYYY-MM-DD HH:MM`, or nothing when absent.
pub open spec fn timestamp_text(ts: Option<Timestamp>) -> Seq<char> {
    match ts {
        Some(t) => zero_padded(t.year as nat, 4) + seq!['-'] + zero_padded(t.month as nat, 2) + seq!['-']
            + zero_padded(t.day as nat, 2) + seq![' '] + zero_padded(t.hour as nat, 2) + seq![':']
            + zero_padded(t.minute as nat, 2),
        None => Seq::empty(),
    }
}

fn push_padded(out: &mut Vec<char>, n: u64, w: usize, fill: char)
    ensures
        final(out)@ == old(out)@ + pad_left(digits_of(n as nat, 10), w as nat, fill),
{
    let d = radix_digits(n, 10);
    let p = pad_left_vec(d, w, fill);
    append_chars(out, p.as_slice());
}

/// Render a timestamp as `YYYY-MM-DD HH:MM`, or an empty string when absent.
pub fn format_timestamp(ts: Option<Timestamp>) -> (r: String)
    ensures
        r@ == timestamp_text(ts),
{
    match ts {
        Some(t) => {
            let mut out: Vec<char> = Vec::new();
            push_padded(&mut out, t.year as u64, 4, '0');
            out.push('-');
            push_padded(&mut out, t.month as u64, 2, '0');
            out.push('-');
            push_padded(&mut out, t.day as u64, 2, '0');
            out.push(' ');
            push_padded(&mut out, t.hour as u64, 2, '0');
            out.push(':');
            push_padded(&mut out, t.minute as u64, 2, '0');
            proof {
                assert(out@ =~= timestamp_text(ts));
            }
            string_from_chars(out.as_slice())
        },
        None => String::new(),
    }
}

/// A file row's data columns: the size right-aligned in 8 columns, two
/// spaces, the date/time left-aligned in 16 columns, two spaces, and the
/// attribute flags.
pub open spec fn row_columns(e: DirEntry) -> Seq<char> {
    pad_left(digits_of(e.size as nat, 10), 8, ' ') + seq![' ', ' '] + pad_right(timestamp_text(e.modified), 16)
        + seq![' ', ' '] + attribute_flags(e.attributes)
}

/// Build a file row's data columns: size + date/time + attributes. The date
/// and attribute columns are always shown; an absent timestamp renders as a
/// blank date column.
pub fn file_row_columns(entry: &DirEntry) -> (r: String)
    ensures
        r@ == row_columns(*entry),
{
    let mut out: Vec<char> = Vec::new();
    push_padded(&mut out, entry.size, 8, ' ');
    out.push(' ');
    out.push(' ');
    let ts = format_timestamp(entry.modified);
    let tv = chars_of(ts.as_str());
    let padded = pad_right_vec(tv, 16);
    append_chars(&mut out, padded.as_slice());
    out.push(' ');
    out.push(' ');
    let a = format_attributes(entry.attributes);
    append_str(&mut out, a.as_str());
    proof {
        assert(out@ =~= row_columns(*entry));
    }
    string_from_chars(out.as_slice())
}

} // verus!

verus! {

/// A whole file row: the name as the tree shows it, left-aligned in 14
/// columns, a space, then the data columns.
pub open spec fn file_row_text(e: DirEntry, display_name: Seq<char>) -> Seq<char> {
    pad_right(display_name, 14) + seq![' '] + row_columns(e)
}

/// Formats a whole file row; `display_name` is the entry's name as the tree
/// shows it (decoded under the disk's character set).
pub fn format_file_row(entry: &DirEntry, display_name: &str) -> (r: String)
    ensures
        r@ == file_row_text(*entry, display_name@),
{
    let mut out = pad_right_vec(chars_of(display_name), 14);
    out.push(' ');
    let cols = file_row_columns(entry);
    append_str(&mut out, cols.as_str());
    proof {
        assert(out@ =~= file_row_text(*entry, display_name@));
    }
    string_from_chars(out.as_slice())
}

/// Message shown in the Files panel when a disk mounts but its FAT directory
/// holds no entries (a blank disk, or a sector-based / non-DOS disk that
/// stores no files in a FAT). Points the user at the raw views.
pub fn empty_fat_message() -> (r: &'static str)
    ensures
        r@ == "This disk's FAT directory is empty \u{2014} no files to list.\n\nIt may be a blank disk or a sector-based (non-DOS) disk. Use the Sectors or Map view to inspect its raw contents."@,
{
    "This disk's FAT directory is empty \u{2014} no files to list.\n\nIt may be a blank disk or a sector-based (non-DOS) disk. Use the Sectors or Map view to inspect its raw contents."
}

/// A byte as two uppercase hex digits.
pub open spec fn hex_byte(b: u8) -> Seq<char> {
    pad_left(digits_of(b as nat, 16), 2, '0')
}

/// Bytes as editable hex: two uppercase digits per byte, a space between
/// bytes and a line break before every 16th byte after the first.
pub open spec fn hex_edit_text(bytes: Seq<u8>) -> Seq<char>
    decreases bytes.len(),
{
    if bytes.len() == 0 {
        Seq::empty()
    } else {
        let i = bytes.len() - 1;
        hex_edit_text(bytes.drop_last()) + (if i > 0 {
            seq![if i % 16 == 0 { '\n' } else { ' ' }]
        } else {
            Seq::empty()
        }) + hex_byte(bytes.last())
    }
}

/// Format bytes as editable hex: 16 space-separated pairs per line.
pub fn format_hex_for_edit(bytes: &[u8]) -> (r: String)
    ensures
        r@ == hex_edit_text(bytes@),
{
    let mut out: Vec<char> = Vec::new();
    let mut i: usize = 0;
    proof {
        assert(bytes@.take(0) =~= Seq::<u8>::empty());
    }
    while i < bytes.len()
        invariant
            i <= bytes.len(),
            out@ == hex_edit_text(bytes@.take(i as int)),
        decreases bytes.len() - i,
    {
        proof {
            assert(bytes@.take(i + 1).drop_last() =~= bytes@.take(i as int));
            assert(bytes@.take(i + 1).last() == bytes@[i as int]);
        }
        let ghost before = out@;
        if i > 0 {
            out.push(if i % 16 == 0 { '\n' } else { ' ' });
        }
        let d = radix_digits(bytes[i] as u64, 16);
        let p = pad_left_vec(d, 2, '0');
        append_chars(&mut out, p.as_slice());
        i = i + 1;
        proof {
            assert(out@ =~= hex_edit_text(bytes@.take(i as int)));
        }
    }
    proof {
        assert(bytes@.take(i as int) =~= bytes@);
    }
    string_from_chars(out.as_slice())
}

/// The "showing first N kB of M kB" notice for a truncated listing.
pub open spec fn notice_text(cap: nat, total: nat) -> Seq<char> {
    "Showing first "@ + digits_of(cap / 1024, 10) + " kB of "@ + digits_of(total / 1024, 10) + " kB."@
}

/// The "showing first N kB of M kB" notice for a truncated listing.
pub fn size_notice(cap: usize, total: usize) -> (r: String)
    ensures
        r@ == notice_text(cap as nat, total as nat),
{
    let mut out: Vec<char> = Vec::new();
    append_str(&mut out, "Showing first ");
    let a = radix_digits((cap / 1024) as u64, 10);
    append_chars(&mut out, a.as_slice());
    append_str(&mut out, " kB of ");
    let b = radix_digits((total / 1024) as u64, 10);
    append_chars(&mut out, b.as_slice());
    append_str(&mut out, " kB.");
    proof {
        assert(out@ =~= notice_text(cap as nat, total as nat));
    }
    string_from_chars(out.as_slice())
}

/// Bytes in a standard single-sided 360 kB image.
pub const SIZE_360K: usize = 368640;

/// Bytes in a standard double-sided 720 kB image.
pub const SIZE_720K: usize = 737280;

/// A disk size as shown in the geometry-mismatch notice: the two standard
/// sizes by name, anything else in whole kB.
pub open spec fn size_label_text(bytes: nat) -> Seq<char> {
    if bytes == 368640 {
        "360 kB (single-sided)"@
    } else if bytes == 737280 {
        "720 kB (double-sided)"@
    } else {
        digits_of(bytes / 1024, 10) + " kB"@
    }
}

/// A disk size as shown in the geometry-mismatch notice.
pub fn size_label(bytes: usize) -> (r: String)
    ensures
        r@ == size_label_text(bytes as nat),
{
    if bytes == SIZE_360K {
        "360 kB (single-sided)".to_string()
    } else if bytes == SIZE_720K {
        "720 kB (double-sided)".to_string()
    } else {
        let mut out = radix_digits((bytes / 1024) as u64, 10);
        append_str(&mut out, " kB");
        string_from_chars(out.as_slice())
    }
}

/// Bytes per floppy sector.
pub const SECTOR_SIZE: u64 = 512;

/// The physical layout of a floppy image.
#[derive(Debug, Clone, Copy, PartialEq, Eq, Structural)]
pub struct Geometry {
    pub sides: u16,
    pub tracks: u16,
    pub sectors_per_track: u16,
}

proof fn lemma_product_bound(x: int, y: int)
    requires
        0 <= x,
        0 <= y,
    ensures
        0 <= x * y,
        x <= 0xffff ==> y <= 0xffff ==> x * y <= 0xffff * 0xffff,
        x <= 0xffff * 0xffff ==> y <= 0xffff * 512 ==> x * y <= 0xffff * 0xffff * 0xffff * 512,
{
    assert(0 <= x * y) by (nonlinear_arith)
        requires 0 <= x, 0 <= y;
    assert(x <= 0xffff ==> y <= 0xffff ==> x * y <= 0xffff * 0xffff) by (nonlinear_arith)
        requires 0 <= x, 0 <= y;
    assert(x <= 0xffff * 0xffff ==> y <= 0xffff * 512 ==> x * y <= 0xffff * 0xffff * 0xffff * 512)
        by (nonlinear_arith)
        requires 0 <= x, 0 <= y;
}

impl Geometry {
    /// 3.5" double-sided, double-density (720 kB).
    pub fn ds_720k() -> (g: Geometry)
        ensures
            g == (Geometry { sides: 2, tracks: 80, sectors_per_track: 9 }),
    {
        Geometry { sides: 2, tracks: 80, sectors_per_track: 9 }
    }

    /// 3.5" single-sided, double-density (360 kB).
    pub fn ss_360k() -> (g: Geometry)
        ensures
            g == (Geometry { sides: 1, tracks: 80, sectors_per_track: 9 }),
    {
        Geometry { sides: 1, tracks: 80, sectors_per_track: 9 }
    }

    /// The number of sectors: sides × tracks × sectors per track.
    pub fn total_sectors(&self) -> (r: u64)
        ensures
            r as nat == self.sides as nat * self.tracks as nat * self.sectors_per_track as nat,
    {
        let a: u64 = self.sides as u64;
        let b: u64 = self.tracks as u64;
        let c: u64 = self.sectors_per_track as u64;
        proof {
            lemma_product_bound(a as int, b as int);
            assert(a * b * c <= 0xffff * 0xffff * 0xffff) by (nonlinear_arith)
                requires
                    a * b <= 0xffff * 0xffff,
                    c <= 0xffff,
                    0 <= a * b,
            ;
        }
        a * b * c
    }

    /// The image size in bytes.
    pub open spec fn bytes(self) -> nat {
        self.sides as nat * self.tracks as nat * self.sectors_per_track as nat * 512
    }

    /// The image size in bytes: sides × tracks × sectors per track × 512.
    pub fn total_bytes(&self) -> (r: u64)
        ensures
            r as nat == self.bytes(),
    {
        let a: u64 = self.sides as u64;
        let b: u64 = self.tracks as u64;
        let c: u64 = self.sectors_per_track as u64;
        proof {
            lemma_product_bound(a as int, b as int);
            lemma_product_bound(a * b, c as int * 512);
            assert(a * b * (c * 512) == a * b * c * 512) by (nonlinear_arith);
        }
        a * b * c * SECTOR_SIZE
    }
}

/// The form-factor name of the standard floppy layouts.
pub open spec fn geometry_name(g: Geometry) -> Option<Seq<char>> {
    if g.sides == 1 && g.tracks == 80 && g.sectors_per_track == 9 {
        Some("3.5\" Single Sided, Double Density (1DD)"@)
    } else if g.sides == 2 && g.tracks == 80 && g.sectors_per_track == 9 {
        Some("3.5\" Double Sided, Double Density (2DD)"@)
    } else if g.sides == 1 && g.tracks == 40 && g.sectors_per_track == 9 {
        Some("5.25\" Single Sided, Double Density (SS,DD)"@)
    } else if g.sides == 2 && g.tracks == 40 && g.sectors_per_track == 9 {
        Some("5.25\" Double Sided, Double Density (DS,DD)"@)
    } else {
        None
    }
}

/// `sides × tracks × sectors/track × 512 bytes/sector = total bytes (kB)`.
pub open spec fn geometry_arithmetic(g: Geometry) -> Seq<char> {
    digits_of(g.sides as nat, 10) + " side"@ + (if g.sides == 1 { Seq::empty() } else { "s"@ }) + " \u{00D7} "@
        + digits_of(g.tracks as nat, 10) + " tracks \u{00D7} "@ + digits_of(g.sectors_per_track as nat, 10)
        + " sectors/track \u{00D7} "@ + digits_of(512, 10) + " bytes/sector = "@ + digits_of(g.bytes(), 10)
        + " bytes ("@ + digits_of(g.bytes() / 1024, 10) + " kB)"@
}

/// The description of a floppy layout: its form-factor name and `: ` when it
/// is a standard one, then the arithmetic.
pub open spec fn geometry_text(g: Geometry) -> Seq<char> {
    match geometry_name(g) {
        Some(n) => n + ": "@ + geometry_arithmetic(g),
        None => geometry_arithmetic(g),
    }
}

/// The texts of `items`, separated by `, `.
pub open spec fn comma_list(items: Seq<String>) -> Seq<char>
    decreases items.len(),
{
    if items.len() == 0 {
        Seq::empty()
    } else if items.len() == 1 {
        items[0]@
    } else {
        comma_list(items.drop_last()) + ", "@ + items.last()@
    }
}

/// The status-bar description of a partitioned hard-disk image: how many
/// partitions it has and their sizes (`sizes`, as already shown to the user).
pub open spec fn hard_disk_text(sizes: Seq<String>) -> Seq<char> {
    if sizes.len() == 0 {
        "Hard disk image"@
    } else {
        "Hard disk image: "@ + digits_of(sizes.len(), 10) + (if sizes.len() == 1 {
            " partition ("@
        } else {
            " partitions ("@
        }) + comma_list(sizes) + ")"@
    }
}

/// The status-bar description of a partitioned hard-disk image, e.g.
/// `Hard disk image: 2 partitions (33.55 MB, 16.78 MB)`.
pub fn describe_hard_disk(sizes: &[String]) -> (r: String)
    ensures
        r@ == hard_disk_text(sizes@),
{
    let mut out: Vec<char> = Vec::new();
    if sizes.len() == 0 {
        append_str(&mut out, "Hard disk image");
        return string_from_chars(out.as_slice());
    }
    append_str(&mut out, "Hard disk image: ");
    let d = radix_digits(sizes.len() as u64, 10);
    append_chars(&mut out, d.as_slice());
    if sizes.len() == 1 {
        append_str(&mut out, " partition (");
    } else {
        append_str(&mut out, " partitions (");
    }
    let ghost head = out@;
    let mut i: usize = 0;
    while i < sizes.len()
        invariant
            i <= sizes@.len(),
            out@ == head + comma_list(sizes@.take(i as int)),
        decreases sizes@.len() - i,
    {
        let ghost before = out@;
        if i > 0 {
            append_str(&mut out, ", ");
        }
        append_str(&mut out, sizes[i].as_str());
        proof {
            assert(sizes@.take(i + 1).drop_last() =~= sizes@.take(i as int));
            assert(sizes@.take(i + 1).last() == sizes@[i as int]);
            if i == 0 {
                assert(comma_list(sizes@.take(0)) =~= Seq::<char>::empty());
                assert(out@ =~= head + comma_list(sizes@.take(1)));
            } else {
                assert(out@ =~= head + comma_list(sizes@.take(i + 1)));
            }
        }
        i = i + 1;
    }
    append_str(&mut out, ")");
    proof {
        assert(sizes@.take(i as int) =~= sizes@);
        assert(out@ =~= hard_disk_text(sizes@));
    }
    string_from_chars(out.as_slice())
}

/// A human-readable description of the physical disk format, e.g.
/// `3.5" Double Sided, Double Density (2DD): 2 sides × 80 tracks × 9
/// sectors/track × 512 bytes/sector = 737280 bytes (720 kB)`.
pub fn describe_geometry(geo: Geometry) -> (r: String)
    ensures
        r@ == geometry_text(geo),
{
    let bytes = geo.total_bytes();
    let mut out: Vec<char> = Vec::new();
    if geo.sides == 1 && geo.tracks == 80 && geo.sectors_per_track == 9 {
        append_str(&mut out, "3.5\" Single Sided, Double Density (1DD)");
        append_str(&mut out, ": ");
    } else if geo.sides == 2 && geo.tracks == 80 && geo.sectors_per_track == 9 {
        append_str(&mut out, "3.5\" Double Sided, Double Density (2DD)");
        append_str(&mut out, ": ");
    } else if geo.sides == 1 && geo.tracks == 40 && geo.sectors_per_track == 9 {
        append_str(&mut out, "5.25\" Single Sided, Double Density (SS,DD)");
        append_str(&mut out, ": ");
    } else if geo.sides == 2 && geo.tracks == 40 && geo.sectors_per_track == 9 {
        append_str(&mut out, "5.25\" Double Sided, Double Density (DS,DD)");
        append_str(&mut out, ": ");
    }
    let ghost prefix = out@;
    let d = radix_digits(geo.sides as u64, 10);
    append_chars(&mut out, d.as_slice());
    append_str(&mut out, " side");
    if geo.sides != 1 {
        append_str(&mut out, "s");
    }
    append_str(&mut out, " \u{00D7} ");
    let d = radix_digits(geo.tracks as u64, 10);
    append_chars(&mut out, d.as_slice());
    append_str(&mut out, " tracks \u{00D7} ");
    let d = radix_digits(geo.sectors_per_track as u64, 10);
    append_chars(&mut out, d.as_slice());
    append_str(&mut out, " sectors/track \u{00D7} ");
    let d = radix_digits(SECTOR_SIZE, 10);
    append_chars(&mut out, d.as_slice());
    append_str(&mut out, " bytes/sector = ");
    let d = radix_digits(bytes, 10);
    append_chars(&mut out, d.as_slice());
    append_str(&mut out, " bytes (");
    let d = radix_digits(bytes / 1024, 10);
    append_chars(&mut out, d.as_slice());
    append_str(&mut out, " kB)");
    proof {
        assert(out@ =~= prefix + geometry_arithmetic(geo));
        match geometry_name(geo) {
            Some(n) => {
                assert(prefix =~= n + ": "@);
            },
            None => {
                assert(prefix =~= Seq::<char>::empty());
            },
        }
    }
    string_from_chars(out.as_slice())
}


/// Recording density of a DMK sector.
#[derive(Debug, Clone, Copy, PartialEq, Eq, Structural)]
pub enum Density {
    /// Single density.
    Fm,
    /// Double density.
    Mfm,
}

/// What the DMK analysis found of one sector.
#[derive(Debug, Clone, Copy, PartialEq, Eq, Structural)]
pub struct DmkSectorInfo {
    /// Sector data size in bytes.
    pub size: usize,
    pub density: Density,
    /// Whether the ID field's CRC matched.
    pub id_crc_ok: bool,
    /// Whether the data field's CRC matched.
    pub data_crc_ok: bool,
}

/// What the DMK analysis found of one track.
#[derive(Debug, Clone, PartialEq, Eq)]
pub struct DmkTrackInfo {
    pub track: usize,
    pub side: usize,
    /// The sectors in the order they were found on the track.
    pub sectors: Vec<DmkSectorInfo>,
}

/// A sector whose ID or data CRC failed.
pub open spec fn crc_bad(s: DmkSectorInfo) -> bool {
    !s.id_crc_ok || !s.data_crc_ok
}

/// How many of `s` have a failed CRC.
pub open spec fn bad_sectors(s: Seq<DmkSectorInfo>) -> nat
    decreases s.len(),
{
    if s.len() == 0 {
        0
    } else {
        bad_sectors(s.drop_last()) + if crc_bad(s.last()) { 1nat } else { 0nat }
    }
}

/// The density column: that of the first sector, `-` for an empty track.
pub open spec fn density_text(s: Seq<DmkSectorInfo>) -> Seq<char> {
    if s.len() == 0 {
        "-"@
    } else if s[0].density is Mfm {
        "MFM"@
    } else {
        "FM"@
    }
}

/// The CRC column: `-` for an empty track, `ok` when every CRC matched, else
/// how many sectors failed.
pub open spec fn crc_text(s: Seq<DmkSectorInfo>) -> Seq<char> {
    if s.len() == 0 {
        "-"@
    } else if bad_sectors(s) == 0 {
        "ok"@
    } else {
        digits_of(bad_sectors(s), 10) + " bad"@
    }
}

/// The notes column.
pub open spec fn notes_text(s: Seq<DmkSectorInfo>, standard: bool) -> Seq<char> {
    if s.len() == 0 {
        "empty"@
    } else if standard {
        "standard"@
    } else {
        "non-standard"@
    }
}

/// One DMK track as a row of the analysis table: track, side, sector count,
/// first sector's size, density and CRC state left-aligned in columns of 5,
/// 4, 7, 4, 4 and 5 characters separated by a space, then the notes.
pub open spec fn dmk_row_text(t: DmkTrackInfo, standard: bool) -> Seq<char> {
    let s = t.sectors@;
    let size: nat = if s.len() == 0 { 0 } else { s[0].size as nat };
    pad_right(digits_of(t.track as nat, 10), 5) + " "@ + pad_right(digits_of(t.side as nat, 10), 4)
        + " "@ + pad_right(digits_of(s.len(), 10), 7) + " "@ + pad_right(digits_of(size, 10), 4)
        + " "@ + pad_right(density_text(s), 4) + " "@ + pad_right(crc_text(s), 5) + " "@
        + notes_text(s, standard)
}

fn count_bad(s: &[DmkSectorInfo]) -> (r: usize)
    ensures
        r as nat == bad_sectors(s@),
{
    let mut n: usize = 0;
    let mut i: usize = 0;
    while i < s.len()
        invariant
            i <= s@.len(),
            n as nat == bad_sectors(s@.take(i as int)),
            n <= i,
        decreases s@.len() - i,
    {
        proof {
            assert(s@.take(i + 1).drop_last() =~= s@.take(i as int));
        }
        if !s[i].id_crc_ok || !s[i].data_crc_ok {
            n = n + 1;
        }
        i = i + 1;
    }
    proof {
        assert(s@.take(i as int) =~= s@);
    }
    n
}

fn push_left_aligned(out: &mut Vec<char>, text: Vec<char>, w: usize)
    ensures
        final(out)@ == old(out)@ + pad_right(text@, w as nat),
{
    let p = pad_right_vec(text, w);
    append_chars(out, p.as_slice());
}

/// Formats one DMK track as a fixed-width row for the analysis table.
/// `standard` is whether the track has the standard MSX layout, as the DMK
/// analysis judged it.
#[verifier::spinoff_prover]
#[verifier::rlimit(50)]
pub fn format_dmk_track_row(t: &DmkTrackInfo, standard: bool) -> (r: String)
    ensures
        r@ == dmk_row_text(*t, standard),
{
    let s = t.sectors.as_slice();
    let count = s.len();
    let size: usize = if count == 0 { 0 } else { s[0].size };
    let bad = count_bad(s);
    let mut out: Vec<char> = Vec::new();
    push_left_aligned(&mut out, radix_digits(t.track as u64, 10), 5);
    out.push(' ');
    push_left_aligned(&mut out, radix_digits(t.side as u64, 10), 4);
    out.push(' ');
    push_left_aligned(&mut out, radix_digits(count as u64, 10), 7);
    out.push(' ');
    push_left_aligned(&mut out, radix_digits(size as u64, 10), 4);
    out.push(' ');
    let dens: Vec<char> = if count == 0 {
        chars_of("-")
    } else {
        match s[0].density {
            Density::Mfm => chars_of("MFM"),
            Density::Fm => chars_of("FM"),
        }
    };
    proof {
        reveal_strlit("-");
        reveal_strlit("MFM");
        reveal_strlit("FM");
        assert(dens@ == density_text(s@));
    }
    push_left_aligned(&mut out, dens, 4);
    out.push(' ');
    let crc: Vec<char> = if count == 0 {
        chars_of("-")
    } else if bad == 0 {
        chars_of("ok")
    } else {
        let mut c = radix_digits(bad as u64, 10);
        append_str(&mut c, " bad");
        c
    };
    proof {
        assert(crc@ == crc_text(s@));
    }
    push_left_aligned(&mut out, crc, 5);
    out.push(' ');
    let ghost before_notes = out@;
    let notes: &str = if count == 0 {
        "empty"
    } else if standard {
        "standard"
    } else {
        "non-standard"
    };
    proof {
        assert(notes@ == notes_text(s@, standard));
    }
    append_str(&mut out, notes);
    proof {
        reveal_strlit(" ");
        assert(out@ == before_notes + notes_text(s@, standard));
        assert(out@ =~= dmk_row_text(*t, standard));
    }
    string_from_chars(out.as_slice())
}

/// A row of the file-type table: the first column left-aligned in 7, the
/// next two right-aligned in 5 and 12, then two spaces and the last.
pub open spec fn type_table_row(ext: Seq<char>, count: Seq<char>, bytes: Seq<char>, desc: Seq<char>) -> Seq<char> {
    pad_right(ext, 7) + seq![' '] + pad_left(count, 5, ' ') + seq![' '] + pad_left(bytes, 12, ' ') + seq![' ', ' ']
        + desc
}

fn type_table_columns(ext: Vec<char>, count: Vec<char>, bytes: Vec<char>, desc: &str) -> (r: String)
    ensures
        r@ == type_table_row(ext@, count@, bytes@, desc@),
{
    let mut out = pad_right_vec(ext, 7);
    out.push(' ');
    append_chars(&mut out, pad_left_vec(count, 5, ' ').as_slice());
    out.push(' ');
    append_chars(&mut out, pad_left_vec(bytes, 12, ' ').as_slice());
    out.push(' ');
    out.push(' ');
    append_str(&mut out, desc);
    proof {
        assert(out@ =~= type_table_row(ext@, count@, bytes@, desc@));
    }
    string_from_chars(out.as_slice())
}

/// The heading of the file-type table.
pub fn type_table_header() -> (r: String)
    ensures
        r@ == type_table_row("Ext"@, "Count"@, "Bytes"@, "Description"@),
{
    type_table_columns(chars_of("Ext"), chars_of("Count"), chars_of("Bytes"), "Description")
}

/// One row of the file-type table: the extension (`(none)` for files
/// without one, else made safe for the column), how many files have it,
/// their total size in bytes, and the type's description when known.
pub fn type_table_line(ext: &str, count: usize, total_bytes: u64, description: Option<&str>) -> (r: String)
    ensures
        r@ == type_table_row(
            if ext@.len() == 0 { "(none)"@ } else { safe_ext(ext@) },
            digits_of(count as nat, 10),
            digits_of(total_bytes as nat, 10),
            match description {
                Some(d) => d@,
                None => Seq::empty(),
            },
        ),
{
    let shown: Vec<char> = if chars_of(ext).len() == 0 {
        chars_of("(none)")
    } else {
        chars_of(display_ext(ext).as_str())
    };
    let desc: &str = match description {
        Some(d) => d,
        None => "",
    };
    proof {
        reveal_strlit("");
    }
    type_table_columns(shown, radix_digits(count as u64, 10), radix_digits(total_bytes, 10), desc)
}

} // verus!
