//! Interaction state of a hex view: cursor, selection, gestures, the
//! go-to-offset parser, and the clipboard dump settings.
use vstd::prelude::*;

use crate::hexlayout::{HexLayout, HexRegion, LayoutModel};
use crate::info::{raw_bytes_text, spaced_hex};
use crate::settings::{grouping_size, HexViewOptions};
use crate::text::{
    append_chars, append_str, chars_of, digits_of, pad_left, pad_left_vec, parse_unsigned, parse_unsigned_vec,
    radix_digits, starts_with, starts_with_vec, string_from_chars, trim, trim_vec,
};

verus! {

/// A named byte offset the user can jump back to in the hex view.
#[derive(Debug, Clone, PartialEq, Eq)]
pub struct Bookmark {
    pub offset: usize,
    pub name: String,
}

/// Per-hex-view interaction state: the byte cursor, an inclusive selection
/// range, the go-to-offset input, and bookmarks.
#[derive(Debug)]
pub struct HexUiState {
    /// The anchored byte (selection start / data-inspector origin).
    pub cursor: Option<usize>,
    /// The selected byte range, inclusive and normalized (`lo <= hi`).
    pub selection: Option<(usize, usize)>,
    /// Text in the go-to-offset box.
    pub goto_input: String,
    /// Named offsets the user has saved.
    pub bookmarks: Vec<Bookmark>,
    /// The byte where the current click-drag began.
    pub drag_anchor: Option<usize>,
    /// Which column the active selection was made in.
    pub region: HexRegion,
}

impl Default for HexUiState {
    fn default() -> (s: Self)
        ensures
            s.cursor is None,
            s.selection is None,
            s.goto_input@.len() == 0,
            s.bookmarks@.len() == 0,
            s.drag_anchor is None,
            s.region == HexRegion::Hex,
    {
        HexUiState {
            cursor: None,
            selection: None,
            goto_input: String::new(),
            bookmarks: Vec::new(),
            drag_anchor: None,
            region: HexRegion::Hex,
        }
    }
}

impl HexUiState {
    /// Clear the transient selection/cursor (keeps bookmarks and goto input).
    pub fn clear_selection(&mut self)
        ensures
            final(self).cursor is None,
            final(self).selection is None,
            final(self).drag_anchor is None,
            final(self).goto_input == old(self).goto_input,
            final(self).bookmarks == old(self).bookmarks,
            final(self).region == old(self).region,
    {
        self.cursor = None;
        self.selection = None;
        self.drag_anchor = None;
    }

    /// Bookmarks the cursor's byte, named after its offset (`0x0001A0`);
    /// nothing happens without a cursor. Returns whether one was added.
    pub fn add_bookmark(&mut self) -> (added: bool)
        ensures
            added == old(self).cursor is Some,
            added ==> bookmark_added(old(self).bookmarks@, final(self).bookmarks@, old(self).cursor->0),
            !added ==> final(self).bookmarks@ == old(self).bookmarks@,
            final(self).cursor == old(self).cursor,
            final(self).selection == old(self).selection,
            final(self).region == old(self).region,
    {
        match self.cursor {
            Some(cur) => {
                let mut name: Vec<char> = Vec::new();
                append_str(&mut name, "0x");
                append_chars(&mut name, pad_left_vec(radix_digits(cur as u64, 16), 6, '0').as_slice());
                proof {
                    reveal_strlit("0x");
                    assert(name@ =~= bookmark_name(cur as nat));
                }
                let ghost before = self.bookmarks@;
                self.bookmarks.push(Bookmark { offset: cur, name: string_from_chars(name.as_slice()) });
                proof {
                    assert(self.bookmarks@.take(before.len() as int) =~= before);
                }
                true
            },
            None => false,
        }
    }

    /// Jumps to bookmark `i`: the cursor goes to its offset, the selection is
    /// dropped, and the row to scroll to (`bytes_per_row` to a row, at least
    /// one) is returned; `None`, changing nothing, when there is no such
    /// bookmark.
    pub fn jump_to_bookmark(&mut self, i: usize, bytes_per_row: usize) -> (row: Option<usize>)
        ensures
            i < old(self).bookmarks@.len() ==> {
                let off = old(self).bookmarks@[i as int].offset;
                &&& final(self).cursor == Some(off)
                &&& final(self).selection is None
                &&& row == Some(off / (if bytes_per_row >= 1 { bytes_per_row } else { 1 }))
            },
            i >= old(self).bookmarks@.len() ==> row is None && final(self).cursor == old(self).cursor
                && final(self).selection == old(self).selection,
            final(self).bookmarks == old(self).bookmarks,
            final(self).region == old(self).region,
    {
        if i < self.bookmarks.len() {
            let off = self.bookmarks[i].offset;
            self.cursor = Some(off);
            self.selection = None;
            let per_row: usize = if bytes_per_row >= 1 { bytes_per_row } else { 1 };
            Some(off / per_row)
        } else {
            None
        }
    }

    /// Deletes bookmark `i`, when there is one.
    pub fn remove_bookmark(&mut self, i: usize)
        ensures
            final(self).bookmarks@ == (if i < old(self).bookmarks@.len() {
                old(self).bookmarks@.remove(i as int)
            } else {
                old(self).bookmarks@
            }),
            final(self).cursor == old(self).cursor,
            final(self).selection == old(self).selection,
    {
        if i < self.bookmarks.len() {
            self.bookmarks.remove(i);
        }
    }
}

/// The name a new bookmark gets: `0x` and its offset as six or more hex
/// digits.
pub open spec fn bookmark_name(offset: nat) -> Seq<char> {
    "0x"@ + pad_left(digits_of(offset, 16), 6, '0')
}

/// `after` is `before` with one more bookmark at the end, at `offset` and
/// named after it.
pub open spec fn bookmark_added(before: Seq<Bookmark>, after: Seq<Bookmark>, offset: usize) -> bool {
    &&& after.len() == before.len() + 1
    &&& after.take(before.len() as int) == before
    &&& after.last().offset == offset
    &&& after.last().name@ == bookmark_name(offset as nat)
}

/// Adding a bookmark at the cursor and then deleting that newest bookmark
/// leaves the bookmark list as it was.
pub proof fn lemma_add_then_remove_bookmark(before: Seq<Bookmark>, after: Seq<Bookmark>, offset: usize)
    requires
        bookmark_added(before, after, offset),
    ensures
        after.remove(before.len() as int) == before,
{
    assert(after.remove(before.len() as int) =~= after.take(before.len() as int));
}

/// A pointer gesture recognized in the hex view.
#[derive(Debug, Clone, Copy, PartialEq, Eq)]
pub enum HexGesture {
    /// A click-drag began at this byte, in the given column.
    DragStart { byte: usize, region: HexRegion },
    /// A click-drag extended to this byte.
    DragTo(usize),
    /// A click landed on this byte; `shift` extends the selection from the
    /// cursor. `region` records which column was clicked.
    Click { byte: usize, shift: bool, region: HexRegion },
}

/// The inclusive range spanned by two offsets, low end first.
pub open spec fn ordered(a: usize, b: usize) -> (usize, usize) {
    if a <= b { (a, b) } else { (b, a) }
}

/// Normalize two byte offsets into an inclusive `(lo, hi)` range.
pub fn normalize(a: usize, b: usize) -> (r: (usize, usize))
    ensures
        r == ordered(a, b),
{
    (if a <= b { a } else { b }, if a >= b { a } else { b })
}

/// Apply a hex gesture to a view's interaction state.
///
/// A drag start sets the anchor and cursor there, clears the selection and
/// records the column; a drag extension (with an anchor) selects from the
/// anchor and puts the cursor on the low end; a plain click moves the cursor
/// and clears the selection, a shift-click selects from the cursor (or the
/// clicked byte when there is none); either click ends any drag and records
/// the column.
pub fn apply_hex_gesture(hs: &mut HexUiState, gesture: HexGesture)
    ensures
        final(hs).goto_input == old(hs).goto_input,
        final(hs).bookmarks == old(hs).bookmarks,
        match gesture {
            HexGesture::DragStart { byte, region } => {
                &&& final(hs).drag_anchor == Some(byte)
                &&& final(hs).cursor == Some(byte)
                &&& final(hs).selection is None
                &&& final(hs).region == region
            },
            HexGesture::DragTo(b) => match old(hs).drag_anchor {
                Some(a) => {
                    &&& final(hs).selection == Some(ordered(a, b))
                    &&& final(hs).cursor == Some(ordered(a, b).0)
                    &&& final(hs).drag_anchor == old(hs).drag_anchor
                    &&& final(hs).region == old(hs).region
                },
                None => {
                    &&& final(hs).selection == old(hs).selection
                    &&& final(hs).cursor == old(hs).cursor
                    &&& final(hs).drag_anchor is None
                    &&& final(hs).region == old(hs).region
                },
            },
            HexGesture::Click { byte, shift, region } => {
                &&& final(hs).drag_anchor is None
                &&& final(hs).region == region
                &&& if shift {
                    &&& final(hs).selection == Some(
                        ordered(
                            match old(hs).cursor {
                                Some(c) => c,
                                None => byte,
                            },
                            byte,
                        ),
                    )
                    &&& final(hs).cursor == old(hs).cursor
                } else {
                    &&& final(hs).cursor == Some(byte)
                    &&& final(hs).selection is None
                }
            },
        },
{
    match gesture {
        HexGesture::DragStart { byte, region } => {
            hs.drag_anchor = Some(byte);
            hs.cursor = Some(byte);
            hs.selection = None;
            hs.region = region;
        },
        HexGesture::DragTo(b) => {
            if let Some(a) = hs.drag_anchor {
                hs.selection = Some(normalize(a, b));
                hs.cursor = Some(if a <= b { a } else { b });
            }
        },
        HexGesture::Click { byte, shift, region } => {
            if shift {
                let anchor = match hs.cursor {
                    Some(c) => c,
                    None => byte,
                };
                hs.selection = Some(normalize(anchor, byte));
            } else {
                hs.cursor = Some(byte);
                hs.selection = None;
            }
            hs.drag_anchor = None;
            hs.region = region;
        },
    }
}

/// Every selection a gesture leaves behind is normalized, whatever the
/// gestures before it did: the low end never exceeds the high end.
pub proof fn lemma_selection_stays_ordered(a: usize, b: usize)
    ensures
        ordered(a, b).0 <= ordered(a, b).1,
        ordered(a, b) == ordered(b, a),
        ordered(a, b).0 == a || ordered(a, b).0 == b,
        ordered(a, b).1 == a || ordered(a, b).1 == b,
{
}

/// The offset text with surrounding whitespace and one `0x` or `0X` prefix
/// removed.
pub open spec fn offset_digits(s: Seq<char>) -> Seq<char> {
    let t = trim(s);
    if starts_with(t, seq!['0', 'x']) || starts_with(t, seq!['0', 'X']) {
        t.skip(2)
    } else {
        t
    }
}

/// Parse a hexadecimal byte offset (with or without a `0x` prefix), as
/// `usize::from_str_radix(_, 16)` reads the digits; empty input is `None`.
pub open spec fn offset_of(s: Seq<char>) -> Option<nat> {
    let t = offset_digits(s);
    if t.len() == 0 {
        None
    } else {
        parse_unsigned(t, 16, usize::MAX as nat)
    }
}

/// Parse a hexadecimal byte offset (with or without a `0x` prefix).
pub fn parse_offset(s: &str) -> (r: Option<usize>)
    ensures
        match r {
            Some(n) => offset_of(s@) == Some(n as nat),
            None => offset_of(s@) is None,
        },
{
    let v = chars_of(s);
    let t = trim_vec(v.as_slice());
    let lower = ['0', 'x'];
    let upper = ['0', 'X'];
    proof {
        assert(lower@ =~= seq!['0', 'x']);
        assert(upper@ =~= seq!['0', 'X']);
    }
    let start: usize = if starts_with_vec(t.as_slice(), lower.as_slice()) || starts_with_vec(
        t.as_slice(),
        upper.as_slice(),
    ) {
        2
    } else {
        0
    };
    let mut d: Vec<char> = Vec::new();
    let mut i: usize = start;
    while i < t.len()
        invariant
            start <= i <= t.len(),
            start <= t.len(),
            d@ == t@.subrange(start as int, i as int),
        decreases t.len() - i,
    {
        d.push(t[i]);
        i = i + 1;
        proof {
            assert(d@ =~= t@.subrange(start as int, i as int));
        }
    }
    proof {
        assert(d@ =~= offset_digits(s@));
    }
    if d.len() == 0 {
        return None;
    }
    match parse_unsigned_vec(d.as_slice(), 16, usize::MAX as u64) {
        Some(n) => Some(n as usize),
        None => None,
    }
}

/// What the go-to-offset box asks for.
#[derive(Debug, Clone, Copy, PartialEq, Eq, Structural)]
pub enum GotoOutcome {
    /// The text is not a hex offset.
    NotAnOffset,
    /// The offset lies past the end of the data.
    PastEnd { offset: usize },
    /// Put the cursor on `offset` (clearing the selection) and scroll to `row`.
    Jump { offset: usize, row: usize },
}

/// The go-to-offset box's outcome for text `input` on data of `len` bytes
/// shown `bytes_per_row` to a row (at least one).
pub open spec fn goto_for(input: Seq<char>, len: nat, bytes_per_row: nat) -> GotoOutcome {
    match offset_of(input) {
        None => GotoOutcome::NotAnOffset,
        Some(off) => if off >= len {
            GotoOutcome::PastEnd { offset: off as usize }
        } else {
            GotoOutcome::Jump {
                offset: off as usize,
                row: (off / (if bytes_per_row >= 1 { bytes_per_row } else { 1 })) as usize,
            }
        },
    }
}

/// Resolves the go-to-offset box: the offset it names, whether it lies in the
/// data, and the row to scroll to.
pub fn goto_offset(input: &str, len: usize, bytes_per_row: usize) -> (r: GotoOutcome)
    ensures
        r == goto_for(input@, len as nat, bytes_per_row as nat),
{
    match parse_offset(input) {
        None => GotoOutcome::NotAnOffset,
        Some(off) => {
            if off >= len {
                GotoOutcome::PastEnd { offset: off }
            } else {
                let per_row: usize = if bytes_per_row >= 1 { bytes_per_row } else { 1 };
                GotoOutcome::Jump { offset: off, row: off / per_row }
            }
        },
    }
}

/// The status-bar text for a go-to outcome on data of `len` bytes.
pub open spec fn goto_status_text(outcome: GotoOutcome, len: nat) -> Seq<char> {
    match outcome {
        GotoOutcome::NotAnOffset => "Enter a hex offset, e.g. 1A0"@,
        GotoOutcome::PastEnd { offset } => "Offset 0x"@ + digits_of(offset as nat, 16) + " is past the end ("@
            + digits_of(len, 10) + " bytes)"@,
        GotoOutcome::Jump { offset, .. } => "Jumped to 0x"@ + pad_left(digits_of(offset as nat, 16), 6, '0'),
    }
}

/// The status-bar text for a go-to outcome on data of `len` bytes.
pub fn goto_status(outcome: GotoOutcome, len: usize) -> (r: String)
    ensures
        r@ == goto_status_text(outcome, len as nat),
{
    let mut out: Vec<char> = Vec::new();
    match outcome {
        GotoOutcome::NotAnOffset => {
            append_str(&mut out, "Enter a hex offset, e.g. 1A0");
        },
        GotoOutcome::PastEnd { offset } => {
            append_str(&mut out, "Offset 0x");
            append_chars(&mut out, radix_digits(offset as u64, 16).as_slice());
            append_str(&mut out, " is past the end (");
            append_chars(&mut out, radix_digits(len as u64, 10).as_slice());
            append_str(&mut out, " bytes)");
        },
        GotoOutcome::Jump { offset, .. } => {
            append_str(&mut out, "Jumped to 0x");
            append_chars(&mut out, pad_left_vec(radix_digits(offset as u64, 16), 6, '0').as_slice());
        },
    }
    proof {
        assert(out@ =~= goto_status_text(outcome, len as nat));
    }
    string_from_chars(out.as_slice())
}

/// The half-open byte range a selection copies from data of `len` bytes: from
/// its low end through its high end, the high end cut back to the last byte;
/// `None` without a selection or when that leaves no valid range.
pub open spec fn copy_span(selection: Option<(usize, usize)>, len: nat) -> Option<(nat, nat)> {
    match selection {
        None => None,
        Some((lo, hi)) => {
            let last: nat = if len >= 1 { (len - 1) as nat } else { 0 };
            let h: nat = if hi <= last { hi as nat } else { last };
            if h + 1 <= len && lo <= h + 1 {
                Some((lo as nat, h + 1))
            } else {
                None
            }
        },
    }
}

/// The half-open byte range the copy of a hex selection takes (see
/// [`copy_span`]).
pub fn selection_span(selection: Option<(usize, usize)>, len: usize) -> (r: Option<(usize, usize)>)
    ensures
        match r {
            Some((a, b)) => copy_span(selection, len as nat) == Some((a as nat, b as nat)),
            None => copy_span(selection, len as nat) is None,
        },
{
    match selection {
        None => None,
        Some((lo, hi)) => {
            let last: usize = if len >= 1 { len - 1 } else { 0 };
            let h: usize = if hi <= last { hi } else { last };
            if h < len && lo <= h + 1 {
                Some((lo, h + 1))
            } else {
                None
            }
        },
    }
}

/// `buf` with `s` written over it from column `at` on, anything past its end
/// cut off.
pub open spec fn overwrite(buf: Seq<char>, at: int, s: Seq<char>) -> Seq<char> {
    Seq::new(buf.len(), |k: int| if at <= k < at + s.len() { s[k - at] } else { buf[k] })
}

/// Overwrite characters in a row buffer starting at character column `at`,
/// clipping anything past the buffer's end.
pub fn place(buf: &mut Vec<char>, at: usize, s: &str)
    ensures
        final(buf)@ == overwrite(old(buf)@, at as int, s@),
        final(buf)@.len() == old(buf)@.len(),
        forall|k: int| 0 <= k < old(buf)@.len() ==> #[trigger] final(buf)@[k] == if at <= k < at + s@.len() {
            s@[k - at]
        } else {
            old(buf)@[k]
        },
{
    let v = chars_of(s);
    let ghost orig = buf@;
    let mut i: usize = 0;
    while i < v.len()
        invariant
            i <= v.len(),
            v@ == s@,
            buf@.len() == orig.len(),
            forall|k: int| 0 <= k < orig.len() ==> #[trigger] buf@[k] == if at <= k < at + i {
                v@[k - at]
            } else {
                orig[k]
            },
        decreases v.len() - i,
    {
        if at < buf.len() && i < buf.len() - at {
            buf.set(at + i, v[i]);
        }
        i = i + 1;
    }
    proof {
        assert(buf@ =~= overwrite(orig, at as int, s@));
    }
}

/// How the clipboard renders a hex dump, mirroring the on-screen options.
#[derive(Debug, Clone, Copy, PartialEq, Eq)]
pub struct HexConfig {
    pub bytes_per_row: usize,
    pub base_address: usize,
    pub show_line_numbers: bool,
    pub line_number_hex: bool,
    pub show_hex: bool,
    pub show_ascii: bool,
    pub grouping: Option<usize>,
    pub hide_null_bytes: bool,
}

/// Build a clipboard [`HexConfig`] that mirrors the on-screen view options.
pub fn hex_config(opts: &HexViewOptions) -> (c: HexConfig)
    ensures
        c.bytes_per_row == (if opts.bytes_per_row >= 1 { opts.bytes_per_row } else { 1 }),
        c.base_address == 0,
        c.show_line_numbers == opts.show_line_numbers,
        c.line_number_hex == opts.line_number_hex,
        c.show_hex == opts.show_hex,
        c.show_ascii == opts.show_ascii,
        c.grouping == grouping_size(opts.grouping),
        c.hide_null_bytes == opts.hide_null_bytes,
{
    HexConfig {
        bytes_per_row: if opts.bytes_per_row >= 1 { opts.bytes_per_row } else { 1 },
        base_address: 0,
        show_line_numbers: opts.show_line_numbers,
        line_number_hex: opts.line_number_hex,
        show_hex: opts.show_hex,
        show_ascii: opts.show_ascii,
        grouping: opts.grouping.size(),
        hide_null_bytes: opts.hide_null_bytes,
    }
}

/// Selected bytes as text: space-separated hex pairs, or in `ascii` mode the
/// characters the bytes show as, `decoded` holding one per byte.
pub open spec fn selected_text(slice: Seq<u8>, ascii: bool, decoded: Seq<char>) -> Seq<char> {
    if ascii {
        decoded
    } else {
        spaced_hex(slice)
    }
}

/// A selected byte slice as `41 0C 42`, or in `ascii` mode as the characters
/// the bytes show as (`decoded`, one per byte).
pub fn format_selected_bytes(slice: &[u8], ascii: bool, decoded: &[char]) -> (r: String)
    requires
        decoded@.len() == slice@.len(),
    ensures
        r@ == selected_text(slice@, ascii, decoded@),
{
    if ascii {
        string_from_chars(decoded)
    } else {
        raw_bytes_text(slice)
    }
}

/// The text the copy of a selection gives: the bytes of [`copy_span`] of
/// `selection` over `bytes` (`decoded` holding the character of each byte),
/// or nothing when the selection is empty or lies past the end.
pub fn selected_bytes_text(bytes: &[u8], selection: Option<(usize, usize)>, ascii: bool, decoded: &[char]) -> (r:
    Option<String>)
    requires
        decoded@.len() == bytes@.len(),
    ensures
        match copy_span(selection, bytes@.len()) {
            Some((a, b)) => r is Some && r->0@ == selected_text(
                bytes@.subrange(a as int, b as int),
                ascii,
                decoded@.subrange(a as int, b as int),
            ),
            None => r is None,
        },
{
    match selection_span(selection, bytes.len()) {
        Some((a, b)) => {
            Some(format_selected_bytes(&bytes[a..b], ascii, &decoded[a..b]))
        },
        None => None,
    }
}

/// The gesture a pointer interaction on the hex dump makes: the byte under
/// character column `ch` of visible row `row` (`row × bytes per row + the
/// byte's column`), when the column points at a byte and that byte exists
/// among the `len` bytes shown; then a drag that `started` on it, a drag that
/// moved onto it (`dragged`), or a click (`shift` held or not), in that order.
pub open spec fn gesture_at(
    m: LayoutModel,
    row: int,
    ch: int,
    len: int,
    started: bool,
    dragged: bool,
    clicked: bool,
    shift: bool,
) -> Option<HexGesture> {
    match m.byte_at(ch) {
        Some((col, region)) => {
            let byte = row * m.bpr + col;
            if byte < len {
                if started {
                    Some(HexGesture::DragStart { byte: byte as usize, region })
                } else if dragged {
                    Some(HexGesture::DragTo(byte as usize))
                } else if clicked {
                    Some(HexGesture::Click { byte: byte as usize, shift, region })
                } else {
                    None
                }
            } else {
                None
            }
        },
        None => None,
    }
}

/// The gesture a pointer interaction on the hex dump makes (see
/// [`gesture_at`]).
pub fn hex_gesture_at(
    layout: &HexLayout,
    row: usize,
    ch: usize,
    len: usize,
    started: bool,
    dragged: bool,
    clicked: bool,
    shift: bool,
) -> (r: Option<HexGesture>)
    ensures
        r == gesture_at(layout@, row as int, ch as int, len as int, started, dragged, clicked, shift),
{
    match layout.byte_at_char(ch) {
        Some((col, region)) => {
            let bpr = layout.bytes_per_row();
            let byte = match row.checked_mul(bpr) {
                Some(base) => base.checked_add(col),
                None => None,
            };
            proof {
                assert(0 <= row * bpr);
            }
            match byte {
                Some(b) => {
                    if b < len {
                        if started {
                            Some(HexGesture::DragStart { byte: b, region })
                        } else if dragged {
                            Some(HexGesture::DragTo(b))
                        } else if clicked {
                            Some(HexGesture::Click { byte: b, shift, region })
                        } else {
                            None
                        }
                    } else {
                        None
                    }
                },
                None => {
                    proof {
                        assert(row * bpr + col > usize::MAX) by (nonlinear_arith)
                            requires
                                row * bpr > usize::MAX || row * bpr + col > usize::MAX,
                                col >= 0,
                        ;
                    }
                    None
                },
            }
        },
        None => None,
    }
}

} // verus!

