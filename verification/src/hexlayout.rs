//! Column geometry for the hex view, in monospace character columns.
//!
//! A single [`HexLayout`] is the source of truth for both painting (where each
//! address/hex/ASCII glyph goes) and hit-testing (which byte a click landed
//! on), so the two can never drift apart. It works in integer character
//! columns; the renderer multiplies by the glyph advance.
//!
//! Layout, left to right (each region optional, per [`HexViewOptions`]):
//! `<address gutter><2 trailing spaces><hex cells><1 gap><ascii gutter>`.
//! Each hex byte is two digits with no internal padding; byte grouping inserts
//! a single space between every group of N bytes (ungrouped prints them
//! contiguously, `Of(1)` yields the classic one-space-per-byte dump).
use vstd::prelude::*;

use crate::settings::{grouping_size, HexViewOptions};
use crate::hexui::{overwrite, place};
use crate::text::{
    all_digits, digit_value, digits_of, lemma_digits_len_monotone, lemma_digits_value, lemma_zero_padded_value, pad_left,
    pad_left_vec, parse_unsigned, radix_digits, string_from_chars, upper_hex_digit, value_of,
};

verus! {

/// Which column of the hex dump a gesture landed in.
#[derive(Clone, Copy, PartialEq, Eq, Debug, Structural)]
pub enum HexRegion {
    /// The two-digit hex byte columns.
    Hex,
    /// The ASCII gutter on the right.
    Ascii,
}

impl Default for HexRegion {
    fn default() -> (r: Self)
        ensures
            r == HexRegion::Hex,
    {
        HexRegion::Hex
    }
}

/// Minimum address-gutter digit count, preserving the classic 6-digit look.
pub const MIN_ADDR_DIGITS: usize = 6;

/// Character columns occupied by a hex byte's two digits.
pub const HEX_DIGITS: usize = 2;

/// The geometry of one hex view, as numbers.
pub ghost struct LayoutModel {
    /// Bytes per row (at least 1).
    pub bpr: int,
    pub show_line_numbers: bool,
    /// Address gutter in hexadecimal (`true`) or decimal.
    pub addr_hex: bool,
    /// Digits in the address gutter (without the 2-space pad).
    pub addr_digits: int,
    pub show_hex: bool,
    pub show_ascii: bool,
    /// Byte-grouping size, or `None` when ungrouped.
    pub group: Option<int>,
    /// Column of the first hex digit.
    pub hex_start: int,
    /// Column of the first ASCII cell.
    pub ascii_start: int,
    /// Width of a whole row.
    pub total_cols: int,
}

impl LayoutModel {
    /// Group separators inserted before hex cell `col`.
    pub open spec fn seps_before(self, col: int) -> int {
        match self.group {
            Some(n) => col / n,
            None => 0,
        }
    }

    /// Width of the hex area: `bpr` two-digit bytes plus one separator before
    /// every group boundary that precedes the last byte.
    pub open spec fn hex_width(self) -> int {
        if self.show_hex {
            self.bpr * 2 + self.seps_before(self.bpr - 1)
        } else {
            0
        }
    }

    /// Column where hex cell `col`'s two digits begin.
    pub open spec fn cell_start(self, col: int) -> int {
        self.hex_start + col * 2 + self.seps_before(col)
    }

    /// One past the last column owned by hex cell `col`: its two digits plus
    /// any separator that follows it (so a click in the gap maps to the
    /// preceding byte).
    pub open spec fn cell_end(self, col: int) -> int {
        if col + 1 < self.bpr {
            self.cell_start(col + 1)
        } else {
            self.cell_start(col) + 2
        }
    }

    /// Character column `ch` lies in the span owned by hex cell `col`.
    pub open spec fn hex_hit(self, ch: int, col: int) -> bool {
        0 <= col < self.bpr && self.cell_start(col) <= ch < self.cell_end(col)
    }

    /// The byte column and region character column `ch` points at: the ASCII
    /// cell when `ch` is in (or past) the ASCII gutter, else the hex cell whose
    /// span holds it; `None` for the address gutter, the gap, or past the row.
    pub open spec fn byte_at(self, ch: int) -> Option<(int, HexRegion)> {
        if self.show_ascii && ch >= self.ascii_start {
            if ch - self.ascii_start < self.bpr {
                Some((ch - self.ascii_start, HexRegion::Ascii))
            } else {
                None
            }
        } else if self.show_hex && exists|col: int| self.hex_hit(ch, col) {
            Some((choose|col: int| self.hex_hit(ch, col), HexRegion::Hex))
        } else {
            None
        }
    }

    /// The relations that tie the fields together, and the bound that keeps
    /// every column inside `usize`.
    pub open spec fn wf(self) -> bool {
        &&& self.bpr >= 1
        &&& self.addr_digits >= MIN_ADDR_DIGITS
        &&& (self.group matches Some(n) ==> n >= 1)
        &&& self.hex_start == (if self.show_line_numbers { self.addr_digits + 2 } else { 0 })
        &&& self.ascii_start == (if self.show_hex { self.hex_start + self.hex_width() + 1 } else { self.hex_start })
        &&& self.total_cols == (if self.show_ascii {
            self.ascii_start + self.bpr
        } else if self.show_hex {
            self.hex_start + self.hex_width()
        } else {
            self.hex_start
        })
        &&& self.ascii_start <= usize::MAX
        &&& self.total_cols <= usize::MAX
    }
}

/// The digits needed to print `max_addr` in the gutter's base, at least
/// [`MIN_ADDR_DIGITS`].
pub open spec fn gutter_digits(hex: bool, max_addr: int) -> int {
    let n = digits_of(max_addr as nat, if hex { 16 } else { 10 }).len() as int;
    if n >= MIN_ADDR_DIGITS {
        n
    } else {
        MIN_ADDR_DIGITS as int
    }
}

/// The geometry for `opts`, `bytes_per_row` and the largest address shown.
pub open spec fn layout_for(opts: HexViewOptions, bytes_per_row: int, max_addr: int) -> LayoutModel {
    let bpr = if bytes_per_row >= 1 { bytes_per_row } else { 1 };
    let addr_digits = gutter_digits(opts.line_number_hex, max_addr);
    let group = match grouping_size(opts.grouping) {
        Some(n) => Some(n as int),
        None => None,
    };
    let hex_start = if opts.show_line_numbers { addr_digits + 2 } else { 0 };
    let partial = LayoutModel {
        bpr,
        show_line_numbers: opts.show_line_numbers,
        addr_hex: opts.line_number_hex,
        addr_digits,
        show_hex: opts.show_hex,
        show_ascii: opts.show_ascii,
        group,
        hex_start,
        ascii_start: 0,
        total_cols: 0,
    };
    let hex_width = partial.hex_width();
    let ascii_start = if opts.show_hex { hex_start + hex_width + 1 } else { hex_start };
    let total_cols = if opts.show_ascii {
        ascii_start + bpr
    } else if opts.show_hex {
        hex_start + hex_width
    } else {
        hex_start
    };
    LayoutModel { ascii_start, total_cols, ..partial }
}

/// The gutter text for `addr`: its digits in the gutter's base (uppercase
/// hex), zero-padded on the left to the gutter width.
pub open spec fn addr_text(m: LayoutModel, addr: int) -> Seq<char> {
    pad_left(digits_of(addr as nat, if m.addr_hex { 16 } else { 10 }), m.addr_digits as nat, '0')
}

/// A row of `n` blank columns.
pub open spec fn blank_row(n: nat) -> Seq<char> {
    Seq::new(n, |_k: int| ' ')
}

/// The two-digit label over hex column `col`: its index in hex (modulo 256)
/// or in decimal (modulo 100), zero-padded.
pub open spec fn column_label(col: int, hex: bool) -> Seq<char> {
    if hex {
        pad_left(digits_of((col % 256) as nat, 16), 2, '0')
    } else {
        pad_left(digits_of((col % 100) as nat, 10), 2, '0')
    }
}

/// `buf` with the labels of hex columns `0..n` written over it at their cells.
pub open spec fn column_labels(m: LayoutModel, buf: Seq<char>, n: int) -> Seq<char>
    decreases n,
{
    if n <= 0 {
        buf
    } else {
        overwrite(column_labels(m, buf, n - 1), m.cell_start(n - 1), column_label(n - 1, m.addr_hex))
    }
}

/// The column-offset ruler above the rows: `Offset` over the address gutter
/// and each hex column's label over its cell, on a blank row as wide as the
/// layout.
pub open spec fn header_text(m: LayoutModel) -> Seq<char> {
    let blank = blank_row(m.total_cols as nat);
    let with_addr = if m.show_line_numbers { overwrite(blank, 0, "Offset"@) } else { blank };
    if m.show_hex { column_labels(m, with_addr, m.bpr) } else { with_addr }
}

/// A byte as two uppercase hex digits.
pub open spec fn hex_pair(b: u8) -> Seq<char> {
    pad_left(digits_of(b as nat, 16), 2, '0')
}

/// `buf` with the first `n` bytes of `chunk` written over it in hex at their
/// cells; a zero byte is left blank when `hide_nulls`.
pub open spec fn hex_cells(m: LayoutModel, buf: Seq<char>, chunk: Seq<u8>, hide_nulls: bool, n: int) -> Seq<char>
    decreases n,
{
    if n <= 0 {
        buf
    } else {
        let prev = hex_cells(m, buf, chunk, hide_nulls, n - 1);
        if hide_nulls && chunk[n - 1] == 0 {
            prev
        } else {
            overwrite(prev, m.cell_start(n - 1), hex_pair(chunk[n - 1]))
        }
    }
}

/// The ASCII gutter of a row: each byte's character as `decoded` gives it,
/// or a blank for a hidden zero byte.
pub open spec fn gutter_of(chunk: Seq<u8>, hide_nulls: bool, decoded: Seq<char>) -> Seq<char> {
    Seq::new(chunk.len(), |i: int| if hide_nulls && chunk[i] == 0 { ' ' } else { decoded[i] })
}

/// Every character of `g` is ASCII.
pub open spec fn all_ascii(g: Seq<char>) -> bool {
    forall|i: int| 0 <= i < g.len() ==> (#[trigger] g[i]) as u32 <= 0x7f
}

/// `buf` with the first `n` gutter characters written over it at their cells.
pub open spec fn ascii_cells(m: LayoutModel, buf: Seq<char>, g: Seq<char>, n: int) -> Seq<char>
    decreases n,
{
    if n <= 0 {
        buf
    } else {
        overwrite(ascii_cells(m, buf, g, n - 1), m.ascii_start + n - 1, seq![g[n - 1]])
    }
}

/// The gutter characters of a row, when the ASCII gutter is shown.
pub open spec fn row_gutter(m: LayoutModel, chunk: Seq<u8>, hide_nulls: bool, decoded: Seq<char>) -> Seq<char> {
    if m.show_ascii { gutter_of(chunk, hide_nulls, decoded) } else { Seq::empty() }
}

/// The text of one row at address `offset`: the address in the gutter, each
/// byte's hex pair at its cell, and, when the gutter characters are all
/// ASCII, each of them at its ASCII cell; on a blank row as wide as the
/// layout. (A gutter with other characters is drawn glyph by glyph.)
pub open spec fn row_text(m: LayoutModel, chunk: Seq<u8>, offset: int, hide_nulls: bool, decoded: Seq<char>) -> Seq<char> {
    let blank = blank_row(m.total_cols as nat);
    let a = if m.show_line_numbers { overwrite(blank, 0, addr_text(m, offset)) } else { blank };
    let h = if m.show_hex { hex_cells(m, a, chunk, hide_nulls, chunk.len() as int) } else { a };
    let g = row_gutter(m, chunk, hide_nulls, decoded);
    if all_ascii(g) { ascii_cells(m, h, g, g.len() as int) } else { h }
}

/// A row of the hex view, as text: the row's characters, its ASCII gutter,
/// and whether that gutter went into the row (all of it ASCII).
pub struct HexRowText {
    pub line: String,
    pub gutter: Vec<char>,
    pub uniform: bool,
}

/// Geometry for one hex view, derived from the display options and row width.
pub struct HexLayout {
    bpr: usize,
    show_line_numbers: bool,
    addr_hex: bool,
    /// Digits in the address gutter (without the 2-space pad).
    addr_digits: usize,
    show_hex: bool,
    show_ascii: bool,
    /// Byte-grouping size, or `None` when ungrouped.
    group: Option<usize>,
    hex_start: usize,
    ascii_start: usize,
    total_cols: usize,
}

impl View for HexLayout {
    type V = LayoutModel;

    closed spec fn view(&self) -> LayoutModel {
        LayoutModel {
            bpr: self.bpr as int,
            show_line_numbers: self.show_line_numbers,
            addr_hex: self.addr_hex,
            addr_digits: self.addr_digits as int,
            show_hex: self.show_hex,
            show_ascii: self.show_ascii,
            group: match self.group {
                Some(n) => Some(n as int),
                None => None,
            },
            hex_start: self.hex_start as int,
            ascii_start: self.ascii_start as int,
            total_cols: self.total_cols as int,
        }
    }
}

/// The hex area's width never undercuts the start of any hex cell's span.
proof fn lemma_cells_inside(m: LayoutModel, col: int)
    requires
        m.bpr >= 1,
        m.group matches Some(n) ==> n >= 1,
        0 <= col < m.bpr,
    ensures
        m.seps_before(col) <= m.seps_before(m.bpr - 1),
        0 <= m.seps_before(col),
        m.cell_start(col) + 2 <= m.hex_start + m.bpr * 2 + m.seps_before(m.bpr - 1),
        col + 1 < m.bpr ==> m.cell_start(col) + 2 <= m.cell_start(col + 1),
{
    match m.group {
        Some(n) => {
            vstd::arithmetic::div_mod::lemma_div_is_ordered(col, m.bpr - 1, n);
            vstd::arithmetic::div_mod::lemma_div_pos_is_pos(col, n);
            if col + 1 < m.bpr {
                vstd::arithmetic::div_mod::lemma_div_is_ordered(col, col + 1, n);
            }
        },
        None => {},
    }
}

/// Hex cell spans start strictly increasing: a later cell starts at or after
/// the end of an earlier one.
proof fn lemma_cells_ordered(m: LayoutModel, a: int, b: int)
    requires
        m.bpr >= 1,
        m.group matches Some(n) ==> n >= 1,
        0 <= a < b < m.bpr,
    ensures
        m.cell_end(a) <= m.cell_start(b),
    decreases b - a,
{
    lemma_cells_inside(m, a);
    if b > a + 1 {
        lemma_cells_ordered(m, a + 1, b);
        lemma_cells_inside(m, a + 1);
    }
}

/// At most one hex cell's span holds a given character column.
proof fn lemma_hit_unique(m: LayoutModel, ch: int, a: int, b: int)
    requires
        m.bpr >= 1,
        m.group matches Some(n) ==> n >= 1,
        m.hex_hit(ch, a),
        m.hex_hit(ch, b),
    ensures
        a == b,
{
    if a < b {
        lemma_cells_ordered(m, a, b);
    } else if b < a {
        lemma_cells_ordered(m, b, a);
    }
}

impl HexLayout {
    #[verifier::type_invariant]
    closed spec fn inv(self) -> bool {
        self@.wf()
    }

    /// Build the layout for `opts`, `bytes_per_row`, and the largest address
    /// that will be shown (used to size the gutter).
    pub fn new(opts: &HexViewOptions, bytes_per_row: usize, max_addr: usize) -> (l: Self)
        requires
            layout_for(*opts, bytes_per_row as int, max_addr as int).ascii_start <= usize::MAX,
            layout_for(*opts, bytes_per_row as int, max_addr as int).total_cols <= usize::MAX,
        ensures
            l@ == layout_for(*opts, bytes_per_row as int, max_addr as int),
            l@.wf(),
    {
        let ghost m = layout_for(*opts, bytes_per_row as int, max_addr as int);
        let bpr = if bytes_per_row >= 1 { bytes_per_row } else { 1 };
        let base: u64 = if opts.line_number_hex { 16 } else { 10 };
        let nd = radix_digits(max_addr as u64, base).len();
        let addr_digits = if nd >= MIN_ADDR_DIGITS { nd } else { MIN_ADDR_DIGITS };
        proof {
            assert(addr_digits == m.addr_digits);
            lemma_digits_len_small(max_addr as nat, base as nat);
        }
        let gutter_width = if opts.show_line_numbers { addr_digits + 2 } else { 0 };
        let group = opts.grouping.size();
        let hex_start = gutter_width;
        let ghost mg = m.group;
        proof {
            lemma_cells_inside(m, bpr - 1);
        }
        let hex_width = if opts.show_hex {
            let seps = match group {
                Some(n) => (bpr - 1) / n,
                None => 0,
            };
            proof {
                assert(bpr * 2 + seps <= m.total_cols);
            }
            bpr * HEX_DIGITS + seps
        } else {
            0
        };
        let ascii_start = if opts.show_hex { hex_start + hex_width + 1 } else { hex_start };
        let total_cols = if opts.show_ascii {
            ascii_start + bpr
        } else if opts.show_hex {
            hex_start + hex_width
        } else {
            gutter_width
        };
        let l = HexLayout {
            bpr,
            show_line_numbers: opts.show_line_numbers,
            addr_hex: opts.line_number_hex,
            addr_digits,
            show_hex: opts.show_hex,
            show_ascii: opts.show_ascii,
            group,
            hex_start,
            ascii_start,
            total_cols,
        };
        proof {
            assert(l@ =~= m);
        }
        l
    }

    /// Bytes shown per row.
    pub fn bytes_per_row(&self) -> (r: usize)
        ensures
            r == self@.bpr,
    {
        self.bpr
    }

    /// Total width of a row in character columns.
    pub fn total_cols(&self) -> (r: usize)
        ensures
            r == self@.total_cols,
    {
        self.total_cols
    }

    /// Whether the address gutter is shown.
    pub fn show_line_numbers(&self) -> (r: bool)
        ensures
            r == self@.show_line_numbers,
    {
        self.show_line_numbers
    }

    /// Whether the hex byte columns are shown.
    pub fn show_hex(&self) -> (r: bool)
        ensures
            r == self@.show_hex,
    {
        self.show_hex
    }

    /// Whether the ASCII gutter is shown.
    pub fn show_ascii(&self) -> (r: bool)
        ensures
            r == self@.show_ascii,
    {
        self.show_ascii
    }

    /// Number of group separators inserted before hex cell `col`.
    fn seps_before(&self, col: usize) -> (r: usize)
        ensures
            r == self@.seps_before(col as int),
    {
        proof {
            use_type_invariant(self);
        }
        match self.group {
            Some(n) => col / n,
            None => 0,
        }
    }

    /// A blank row as wide as the layout.
    fn blank(&self) -> (v: Vec<char>)
        ensures
            v@ == blank_row(self@.total_cols as nat),
    {
        let mut v: Vec<char> = Vec::new();
        let mut i: usize = 0;
        while i < self.total_cols
            invariant
                i <= self.total_cols,
                v@ == blank_row(i as nat),
            decreases self.total_cols - i,
        {
            v.push(' ');
            i = i + 1;
            proof {
                assert(v@ =~= blank_row(i as nat));
            }
        }
        v
    }

    /// The non-scrolling column-offset header line.
    pub fn header_line(&self) -> (r: String)
        ensures
            r@ == header_text(self@),
    {
        proof {
            use_type_invariant(self);
        }
        let ghost m = self@;
        let mut buf = self.blank();
        if self.show_line_numbers {
            place(&mut buf, 0, "Offset");
        }
        let ghost with_addr = buf@;
        if self.show_hex {
            let mut col: usize = 0;
            while col < self.bpr
                invariant
                    m == self@,
                    m.wf(),
                    m.show_hex,
                    col <= m.bpr,
                    buf@ == column_labels(m, with_addr, col as int),
                decreases m.bpr - col,
            {
                proof {
                    lemma_cells_inside(m, col as int);
                }
                let at = match self.hex_cell_col(col) {
                    Some(a) => a,
                    None => 0,
                };
                let label = if self.addr_hex {
                    pad_left_vec(radix_digits((col % 256) as u64, 16), 2, '0')
                } else {
                    pad_left_vec(radix_digits((col % 100) as u64, 10), 2, '0')
                };
                let text = string_from_chars(label.as_slice());
                place(&mut buf, at, text.as_str());
                col = col + 1;
            }
        }
        string_from_chars(buf.as_slice())
    }

    /// The text of one row: `chunk` is the row's bytes (at most a row's
    /// worth), `offset` its address, and `decoded` the character each byte
    /// shows as in the ASCII gutter.
    pub fn row_text(&self, chunk: &[u8], offset: usize, hide_nulls: bool, decoded: &[char]) -> (r: HexRowText)
        requires
            chunk@.len() <= self@.bpr,
            decoded@.len() == chunk@.len(),
        ensures
            r.line@ == row_text(self@, chunk@, offset as int, hide_nulls, decoded@),
            r.gutter@ == row_gutter(self@, chunk@, hide_nulls, decoded@),
            r.uniform == all_ascii(r.gutter@),
    {
        proof {
            use_type_invariant(self);
        }
        let ghost m = self@;
        let mut buf = self.blank();
        if self.show_line_numbers {
            let addr = self.format_addr(offset);
            place(&mut buf, 0, addr.as_str());
        }
        let ghost a = buf@;
        if self.show_hex {
            let mut col: usize = 0;
            while col < chunk.len()
                invariant
                    m == self@,
                    m.wf(),
                    m.show_hex,
                    col <= chunk@.len(),
                    chunk@.len() <= m.bpr,
                    buf@ == hex_cells(m, a, chunk@, hide_nulls, col as int),
                decreases chunk@.len() - col,
            {
                proof {
                    lemma_cells_inside(m, col as int);
                }
                let b = chunk[col];
                if !(hide_nulls && b == 0) {
                    let at = match self.hex_cell_col(col) {
                        Some(x) => x,
                        None => 0,
                    };
                    let pair = pad_left_vec(radix_digits(b as u64, 16), 2, '0');
                    let text = string_from_chars(pair.as_slice());
                    place(&mut buf, at, text.as_str());
                }
                col = col + 1;
            }
        }
        let ghost h = buf@;
        let mut gutter: Vec<char> = Vec::new();
        if self.show_ascii {
            let mut i: usize = 0;
            while i < chunk.len()
                invariant
                    i <= chunk@.len(),
                    decoded@.len() == chunk@.len(),
                    gutter@ == gutter_of(chunk@, hide_nulls, decoded@).take(i as int),
                decreases chunk@.len() - i,
            {
                let c = if hide_nulls && chunk[i] == 0 { ' ' } else { decoded[i] };
                gutter.push(c);
                i = i + 1;
                proof {
                    assert(gutter@ =~= gutter_of(chunk@, hide_nulls, decoded@).take(i as int));
                }
            }
            proof {
                assert(gutter@ =~= gutter_of(chunk@, hide_nulls, decoded@));
            }
        } else {
            proof {
                assert(gutter@ =~= Seq::<char>::empty());
            }
        }
        let mut uniform = true;
        let mut k: usize = 0;
        while k < gutter.len()
            invariant
                k <= gutter@.len(),
                uniform == (forall|j: int| 0 <= j < k ==> (#[trigger] gutter@[j]) as u32 <= 0x7f),
            decreases gutter@.len() - k,
        {
            if (gutter[k] as u32) > 0x7f {
                uniform = false;
            }
            k = k + 1;
        }
        if uniform {
            let mut col: usize = 0;
            while col < gutter.len()
                invariant
                    m == self@,
                    m.wf(),
                    col <= gutter@.len(),
                    gutter@.len() <= m.bpr,
                    gutter@.len() > 0 ==> m.show_ascii,
                    buf@ == ascii_cells(m, h, gutter@, col as int),
                decreases gutter@.len() - col,
            {
                let at = match self.ascii_cell_col(col) {
                    Some(x) => x,
                    None => 0,
                };
                let mut one: Vec<char> = Vec::new();
                one.push(gutter[col]);
                let text = string_from_chars(one.as_slice());
                place(&mut buf, at, text.as_str());
                proof {
                    assert(one@ =~= seq![gutter@[col as int]]);
                }
                col = col + 1;
            }
        }
        HexRowText { line: string_from_chars(buf.as_slice()), gutter, uniform }
    }

    /// Render an address into the gutter's fixed-width form.
    pub fn format_addr(&self, addr: usize) -> (s: String)
        ensures
            s@ == addr_text(self@, addr as int),
    {
        let base: u64 = if self.addr_hex { 16 } else { 10 };
        let digits = radix_digits(addr as u64, base);
        let padded = pad_left_vec(digits, self.addr_digits, '0');
        string_from_chars(padded.as_slice())
    }

    /// Character column where hex cell `col`'s two digits begin, or `None`
    /// when the hex columns are hidden.
    pub fn hex_cell_col(&self, col: usize) -> (r: Option<usize>)
        requires
            self@.show_hex ==> self@.cell_start(col as int) <= usize::MAX,
        ensures
            r == (if self@.show_hex { Some(self@.cell_start(col as int) as usize) } else { None }),
    {
        proof {
            use_type_invariant(self);
            if self@.show_hex {
                vstd::arithmetic::div_mod::lemma_div_pos_is_pos(col as int, 1);
                match self@.group {
                    Some(n) => {
                        vstd::arithmetic::div_mod::lemma_div_pos_is_pos(col as int, n);
                    },
                    None => {},
                }
            }
        }
        if self.show_hex {
            Some(self.hex_start + col * HEX_DIGITS + self.seps_before(col))
        } else {
            None
        }
    }

    /// Character column of ASCII cell `col`, or `None` when the gutter is
    /// hidden.
    pub fn ascii_cell_col(&self, col: usize) -> (r: Option<usize>)
        requires
            self@.show_ascii ==> self@.ascii_start + col <= usize::MAX,
        ensures
            r == (if self@.show_ascii { Some((self@.ascii_start + col) as usize) } else { None }),
    {
        if self.show_ascii {
            Some(self.ascii_start + col)
        } else {
            None
        }
    }

    /// Map a character column to the byte column and region it points at.
    /// `None` for the gutter, inter-region gaps, or past the row's columns.
    pub fn byte_at_char(&self, ch: usize) -> (r: Option<(usize, HexRegion)>)
        ensures
            match r {
                Some((col, region)) => self@.byte_at(ch as int) == Some((col as int, region)),
                None => self@.byte_at(ch as int) is None,
            },
    {
        proof {
            use_type_invariant(self);
        }
        let ghost m = self@;
        if self.show_ascii && ch >= self.ascii_start {
            let col = ch - self.ascii_start;
            if col < self.bpr {
                return Some((col, HexRegion::Ascii));
            } else {
                return None;
            }
        }
        if self.show_hex {
            // Each cell owns its two digits plus any following separator.
            // Scan because spacing is non-uniform once grouped.
            let mut col: usize = 0;
            while col < self.bpr
                invariant
                    m == self@,
                    m.wf(),
                    m.show_hex,
                    col <= m.bpr,
                    forall|c: int| 0 <= c < col ==> !#[trigger] m.hex_hit(ch as int, c),
                decreases m.bpr - col,
            {
                proof {
                    lemma_cells_inside(m, col as int);
                    if col + 1 < m.bpr {
                        lemma_cells_inside(m, col + 1);
                    }
                }
                let start = self.hex_start + col * HEX_DIGITS + self.seps_before(col);
                let end = if col + 1 < self.bpr {
                    self.hex_start + (col + 1) * HEX_DIGITS + self.seps_before(col + 1)
                } else {
                    start + HEX_DIGITS
                };
                if ch >= start && ch < end {
                    proof {
                        assert(m.hex_hit(ch as int, col as int));
                        let c = choose|c: int| m.hex_hit(ch as int, c);
                        lemma_hit_unique(m, ch as int, c, col as int);
                    }
                    return Some((col, HexRegion::Hex));
                }
                col = col + 1;
            }
        }
        None
    }
}

/// The digit count of an address is small (at most 65 for a `u64`).
proof fn lemma_digits_len_small(n: nat, base: nat)
    requires
        2 <= base <= 16,
        n <= u64::MAX,
    ensures
        digits_of(n, base).len() <= 65,
{
    vstd::arithmetic::power2::lemma2_to64();
    lemma_digits_len_bound(n, base, 64);
}

proof fn lemma_digits_len_bound(n: nat, base: nat, k: nat)
    requires
        2 <= base <= 16,
        n < vstd::arithmetic::power2::pow2(k),
    ensures
        digits_of(n, base).len() <= k + 1,
    decreases n,
{
    if n >= base {
        assert(n / base <= n / 2) by {
            vstd::arithmetic::div_mod::lemma_div_is_ordered_by_denominator(n as int, 2, base as int);
        }
        if k == 0 {
            vstd::arithmetic::power2::lemma2_to64();
        } else {
            vstd::arithmetic::power2::lemma_pow2_unfold(k);
            assert(n / 2 < vstd::arithmetic::power2::pow2((k - 1) as nat)) by (nonlinear_arith)
                requires
                    n < 2 * vstd::arithmetic::power2::pow2((k - 1) as nat),
            ;
            lemma_digits_len_bound(n / base, base, (k - 1) as nat);
        }
    }
}

/// Hit-testing inverts painting: the first and second digit of every hex
/// cell, and the separator column that follows any cell but the last, map
/// back to that cell; every ASCII cell maps back to its byte.
pub proof fn lemma_click_round_trip(m: LayoutModel, col: int)
    requires
        m.wf(),
        0 <= col < m.bpr,
    ensures
        m.show_hex ==> m.byte_at(m.cell_start(col)) == Some((col, HexRegion::Hex)),
        m.show_hex ==> m.byte_at(m.cell_start(col) + 1) == Some((col, HexRegion::Hex)),
        m.show_hex && col + 1 < m.bpr && m.seps_before(col + 1) > m.seps_before(col)
            ==> m.byte_at(m.cell_start(col) + 2) == Some((col, HexRegion::Hex)),
        m.show_ascii ==> m.byte_at(m.ascii_start + col) == Some((col, HexRegion::Ascii)),
{
    lemma_cells_inside(m, col);
    if m.show_hex {
        if col + 1 < m.bpr {
            lemma_cells_inside(m, col + 1);
        }
        assert forall|ch: int| m.cell_start(col) <= ch < m.cell_end(col) implies m.byte_at(ch) == Some((col, HexRegion::Hex)) by {
            assert(m.hex_hit(ch, col));
            assert(ch < m.ascii_start);
            let c = choose|c: int| m.hex_hit(ch, c);
            lemma_hit_unique(m, ch, c, col);
        }
        if col + 1 < m.bpr {
            lemma_cells_inside(m, col + 1);
            assert(m.cell_end(col) == m.cell_start(col) + 2 + (m.seps_before(col + 1) - m.seps_before(col)));
        }
    }
}

/// The shape of a row, left to right: the address gutter (its digits and two
/// spaces), the hex cells in order with each cell's two digits clear of the
/// next cell, one gap column, then one ASCII cell per byte; the row ends
/// right after the last region shown.
pub proof fn lemma_row_shape(m: LayoutModel, a: int, b: int)
    requires
        m.wf(),
        0 <= a < b < m.bpr,
    ensures
        m.cell_start(0) == m.hex_start,
        m.cell_start(a) + 2 <= m.cell_start(b),
        m.show_hex ==> m.ascii_start == m.cell_start(m.bpr - 1) + 3,
        m.total_cols == (if m.show_ascii {
            m.ascii_start + m.bpr
        } else if m.show_hex {
            m.cell_start(m.bpr - 1) + 2
        } else if m.show_line_numbers {
            m.addr_digits + 2
        } else {
            0
        }),
{
    lemma_cells_ordered(m, a, b);
    lemma_cells_inside(m, a);
    match m.group {
        Some(n) => {
            assert(0int / n == 0) by (nonlinear_arith)
                requires
                    n >= 1,
            ;
        },
        None => {},
    }
}

/// Every address up to the largest one the gutter was sized for prints as
/// exactly the gutter's width of digits (at least six), uppercase in hex,
/// and reads back as that address.
pub proof fn lemma_address_text(opts: HexViewOptions, bytes_per_row: int, max_addr: int, addr: int)
    requires
        0 <= addr <= max_addr,
    ensures
        ({
            let m = layout_for(opts, bytes_per_row, max_addr);
            let base: nat = if opts.line_number_hex { 16 } else { 10 };
            let t = addr_text(m, addr);
            &&& m.addr_digits == (if digits_of(max_addr as nat, base).len() >= 6 {
                digits_of(max_addr as nat, base).len() as int
            } else {
                6
            })
            &&& t.len() == m.addr_digits
            &&& forall|k: int| 0 <= k < t.len() ==> upper_hex_digit(#[trigger] t[k])
            &&& all_digits(t, base)
            &&& value_of(t, base) == addr
            &&& (addr <= usize::MAX ==> parse_unsigned(t, base, usize::MAX as nat) == Some(addr as nat))
        }),
{
    let m = layout_for(opts, bytes_per_row, max_addr);
    let base: nat = if opts.line_number_hex { 16 } else { 10 };
    let d = digits_of(addr as nat, base);
    let t = addr_text(m, addr);
    lemma_digits_value(addr as nat, base);
    lemma_digits_len_monotone(addr as nat, max_addr as nat, base);
    lemma_zero_padded_value(d, m.addr_digits as nat, base);
    assert(t == pad_left(d, m.addr_digits as nat, '0'));
    assert forall|k: int| 0 <= k < t.len() implies upper_hex_digit(#[trigger] t[k]) by {
        if d.len() < m.addr_digits {
            let z = (m.addr_digits - d.len()) as int;
            if k >= z {
                assert(t[k] == d[k - z]);
            }
        }
    }
    assert(t.len() >= 1);
    assert(digit_value(t[0], base) is Some);
}

/// The layout a set of options builds shows exactly the regions the options
/// ask for, with at least one byte per row, the hex area right after the
/// gutter, and the ASCII cells as the row's last `bpr` columns.
pub proof fn lemma_layout_follows_options(opts: HexViewOptions, bytes_per_row: int, max_addr: int)
    ensures
        ({
            let m = layout_for(opts, bytes_per_row, max_addr);
            &&& m.show_line_numbers == opts.show_line_numbers
            &&& m.show_hex == opts.show_hex
            &&& m.show_ascii == opts.show_ascii
            &&& m.addr_hex == opts.line_number_hex
            &&& m.bpr == (if bytes_per_row >= 1 { bytes_per_row } else { 1 })
            &&& m.hex_start == (if opts.show_line_numbers { m.addr_digits + 2 } else { 0 })
            &&& (m.show_ascii ==> m.ascii_start == m.total_cols - m.bpr)
        }),
{
}

/// A character column that lies in a hex cell's span, left of the ASCII
/// cells, points at that cell and no other.
pub proof fn lemma_hex_column_owner(m: LayoutModel, ch: int, col: int)
    requires
        m.wf(),
        m.show_hex,
        m.hex_hit(ch, col),
        !(m.show_ascii && ch >= m.ascii_start),
    ensures
        m.byte_at(ch) == Some((col, HexRegion::Hex)),
{
    let c = choose|c: int| m.hex_hit(ch, c);
    lemma_hit_unique(m, ch, c, col);
}

} // verus!


