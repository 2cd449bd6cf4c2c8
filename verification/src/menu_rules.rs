//! What the View menu's commands do to the options, seen through the ticks
//! the menu shows afterwards.

use vstd::prelude::*;

use crate::menu::{checked, hex_after, number_after};
use crate::settings::{ByteGrouping, HexViewOptions, Settings};
use crate::text::starts_with;

verus! {

/// The settings after the View command `id`: the hex-view options it
/// changes, and the status bar it may toggle; the rest stays.
pub open spec fn view_after(id: Seq<char>, s: Settings) -> Settings {
    Settings {
        hex: hex_after(id, s.hex),
        show_status_bar: if id == "view.status_bar"@ {
            !s.show_status_bar
        } else {
            s.show_status_bar
        },
        ..s
    }
}

/// The View menu's on/off items.
pub open spec fn is_toggle_item(id: Seq<char>) -> bool {
    ||| id == "view.line_numbers"@
    ||| id == "view.hex"@
    ||| id == "view.ascii"@
    ||| id == "view.status_bar"@
    ||| id == "view.columns"@
    ||| id == "view.hide_nulls"@
}

/// The options other than the address base are the same in `a` and `b`.
pub open spec fn same_but_address_base(a: HexViewOptions, b: HexViewOptions) -> bool {
    &&& a.show_line_numbers == b.show_line_numbers
    &&& a.show_hex == b.show_hex
    &&& a.show_ascii == b.show_ascii
    &&& a.show_columns == b.show_columns
    &&& a.bytes_per_row == b.bytes_per_row
    &&& a.grouping == b.grouping
    &&& a.hide_null_bytes == b.hide_null_bytes
}

/// Choosing Address > Hexadecimal shows hexadecimal addresses and
/// Address > Decimal shows decimal ones, whatever was shown before and
/// without touching any other option; afterwards the chosen item is ticked
/// and the other one is not.
pub proof fn lemma_address_base_items(s: Settings)
    ensures
        hex_after("view.lnf.hex"@, s.hex).line_number_hex,
        !hex_after("view.lnf.dec"@, s.hex).line_number_hex,
        same_but_address_base(hex_after("view.lnf.hex"@, s.hex), s.hex),
        same_but_address_base(hex_after("view.lnf.dec"@, s.hex), s.hex),
        checked("view.lnf.hex"@, view_after("view.lnf.hex"@, s)),
        !checked("view.lnf.dec"@, view_after("view.lnf.hex"@, s)),
        checked("view.lnf.dec"@, view_after("view.lnf.dec"@, s)),
        !checked("view.lnf.hex"@, view_after("view.lnf.dec"@, s)),
{
    reveal_strlit("view.line_numbers");
    reveal_strlit("view.hex");
    reveal_strlit("view.ascii");
    reveal_strlit("view.status_bar");
    reveal_strlit("view.columns");
    reveal_strlit("view.hide_nulls");
    reveal_strlit("view.lnf.hex");
    reveal_strlit("view.lnf.dec");
    reveal_strlit("view.group.none");
    reveal_strlit("view.bpr.");
    reveal_strlit("view.group.");
    assert("view.columns"@[5] == 'c' && "view.hide_nulls"@[5] == 'h' && "view.status_bar"@[5] == 's');
    assert("view.lnf.hex"@[5] == 'l' && "view.lnf.dec"@[5] == 'l' && "view.group.none"@[5] == 'g');
    assert("view.lnf.hex"@[9] == 'h' && "view.lnf.dec"@[9] == 'd');
}

/// Each on/off item flips its own tick, and choosing it twice gives back
/// the settings it started from.
pub proof fn lemma_toggle_items(id: Seq<char>, s: Settings)
    requires
        is_toggle_item(id),
    ensures
        checked(id, view_after(id, s)) == !checked(id, s),
        view_after(id, view_after(id, s)) == s,
{
    reveal_strlit("view.line_numbers");
    reveal_strlit("view.hex");
    reveal_strlit("view.ascii");
    reveal_strlit("view.status_bar");
    reveal_strlit("view.columns");
    reveal_strlit("view.hide_nulls");
    reveal_strlit("view.lnf.hex");
    reveal_strlit("view.lnf.dec");
    reveal_strlit("view.group.none");
    reveal_strlit("view.bpr.");
    reveal_strlit("view.group.");
}

/// Choosing "no grouping" leaves the bytes ungrouped, and its item ticked.
pub proof fn lemma_no_grouping_item(s: Settings)
    ensures
        hex_after("view.group.none"@, s.hex).grouping == ByteGrouping::Ungrouped,
        checked("view.group.none"@, view_after("view.group.none"@, s)),
{
    reveal_strlit("view.line_numbers");
    reveal_strlit("view.hex");
    reveal_strlit("view.ascii");
    reveal_strlit("view.status_bar");
    reveal_strlit("view.columns");
    reveal_strlit("view.hide_nulls");
    reveal_strlit("view.lnf.hex");
    reveal_strlit("view.lnf.dec");
    reveal_strlit("view.group.none");
    reveal_strlit("view.bpr.");
    reveal_strlit("view.group.");
    assert("view.columns"@[5] == 'c' && "view.hide_nulls"@[5] == 'h' && "view.status_bar"@[5] == 's');
    assert("view.lnf.hex"@[5] == 'l' && "view.lnf.dec"@[5] == 'l' && "view.group.none"@[5] == 'g');
    assert("view.lnf.hex"@[9] == 'h' && "view.lnf.dec"@[9] == 'd');
}

/// Choosing a bytes-per-row item shows that many bytes on a row, and ticks
/// that item.
pub proof fn lemma_bytes_per_row_item(id: Seq<char>, s: Settings)
    requires
        starts_with(id, "view.bpr."@),
        number_after(id, "view.bpr."@) is Some,
    ensures
        hex_after(id, s.hex).bytes_per_row == number_after(id, "view.bpr."@)->0,
        checked(id, view_after(id, s)),
{
    reveal_strlit("view.line_numbers");
    reveal_strlit("view.hex");
    reveal_strlit("view.ascii");
    reveal_strlit("view.status_bar");
    reveal_strlit("view.columns");
    reveal_strlit("view.hide_nulls");
    reveal_strlit("view.lnf.hex");
    reveal_strlit("view.lnf.dec");
    reveal_strlit("view.group.none");
    reveal_strlit("view.bpr.");
    reveal_strlit("view.group.");
    assert(id[5] == id.take(9)[5]);
}

} // verus!
