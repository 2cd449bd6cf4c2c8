//! The menu commands: what each one changes in the settings and asks of the
//! application, and the state of the View menu's check items, derived from
//! the settings.
use vstd::prelude::*;

use crate::i18n::Lang;
use crate::settings::{ByteGrouping, HexViewOptions, Settings};
use crate::text::{chars_eq, chars_of, parse_unsigned, parse_unsigned_vec, slice_vec, starts_with, starts_with_vec};

verus! {

/// The number that follows `prefix` in `id`, or 0 when `id` does not start
/// with `prefix` or the rest is not a `usize` in decimal.
pub open spec fn suffix_value(id: Seq<char>, prefix: Seq<char>) -> nat {
    if starts_with(id, prefix) {
        match parse_unsigned(id.skip(prefix.len() as int), 10, usize::MAX as nat) {
            Some(n) => n,
            None => 0,
        }
    } else {
        0
    }
}

/// The numeric suffix of an id like `view.bpr.16` (0 if it does not match).
pub fn id_suffix(id: &str, prefix: &str) -> (r: usize)
    ensures
        r as nat == suffix_value(id@, prefix@),
{
    let v = chars_of(id);
    let p = chars_of(prefix);
    if !starts_with_vec(v.as_slice(), p.as_slice()) {
        return 0;
    }
    let rest = slice_vec(v.as_slice(), p.len(), v.len());
    proof {
        assert(rest@ =~= id@.skip(prefix@.len() as int));
    }
    match parse_unsigned_vec(rest.as_slice(), 10, usize::MAX as u64) {
        Some(n) => n as usize,
        None => 0,
    }
}

/// Whether `v` spells the text `lit`.
fn same(v: &[char], lit: &str) -> (r: bool)
    ensures
        r == (v@ == lit@),
{
    chars_eq(v, chars_of(lit).as_slice())
}

/// Whether the check item `id` is ticked under settings `s`.
pub open spec fn checked(id: Seq<char>, s: Settings) -> bool {
    if id == "view.line_numbers"@ {
        s.hex.show_line_numbers
    } else if id == "view.hex"@ {
        s.hex.show_hex
    } else if id == "view.ascii"@ {
        s.hex.show_ascii
    } else if id == "view.status_bar"@ {
        s.show_status_bar
    } else if id == "view.columns"@ {
        s.hex.show_columns
    } else if id == "view.hide_nulls"@ {
        s.hex.hide_null_bytes
    } else if id == "view.lnf.hex"@ {
        s.hex.line_number_hex
    } else if id == "view.lnf.dec"@ {
        !s.hex.line_number_hex
    } else if id == "view.group.none"@ {
        s.hex.grouping == ByteGrouping::Ungrouped
    } else if starts_with(id, "view.bpr."@) {
        s.hex.bytes_per_row as nat == suffix_value(id, "view.bpr."@)
    } else {
        s.hex.grouping == ByteGrouping::Of(suffix_value(id, "view.group."@) as usize)
    }
}

/// Re-derives the check state of the menu item `id` from `s` (radio groups
/// included): the toggles read their flag, the address-base, grouping and
/// bytes-per-row items compare the setting with the item's own value.
pub fn check_state(id: &str, s: &Settings) -> (r: bool)
    ensures
        r == checked(id@, *s),
{
    let v = chars_of(id);
    if same(v.as_slice(), "view.line_numbers") {
        s.hex.show_line_numbers
    } else if same(v.as_slice(), "view.hex") {
        s.hex.show_hex
    } else if same(v.as_slice(), "view.ascii") {
        s.hex.show_ascii
    } else if same(v.as_slice(), "view.status_bar") {
        s.show_status_bar
    } else if same(v.as_slice(), "view.columns") {
        s.hex.show_columns
    } else if same(v.as_slice(), "view.hide_nulls") {
        s.hex.hide_null_bytes
    } else if same(v.as_slice(), "view.lnf.hex") {
        s.hex.line_number_hex
    } else if same(v.as_slice(), "view.lnf.dec") {
        !s.hex.line_number_hex
    } else if same(v.as_slice(), "view.group.none") {
        match s.hex.grouping {
            ByteGrouping::Ungrouped => true,
            ByteGrouping::Of(_) => false,
        }
    } else if starts_with_vec(v.as_slice(), chars_of("view.bpr.").as_slice()) {
        s.hex.bytes_per_row == id_suffix(id, "view.bpr.")
    } else {
        let n = id_suffix(id, "view.group.");
        match s.hex.grouping {
            ByteGrouping::Ungrouped => false,
            ByteGrouping::Of(k) => k == n,
        }
    }
}

/// What a menu command asks of the application, beyond the settings it
/// changes itself.
#[derive(Debug, Clone, Copy, PartialEq, Eq, Structural)]
pub enum MenuAction {
    /// Nothing more (a View setting changed, or the id is not a command).
    Nothing,
    ShowAbout,
    ShowShortcuts,
    /// Open the new-disk dialog.
    NewDisk,
    NewWindow,
    /// Open the file dialog.
    Open,
    SaveDsk,
    SaveXsa,
    SaveSav,
    /// Close the open document.
    Close,
    /// The recent-files list was emptied; rebuild its menu.
    RecentCleared,
    /// Detect the text encoding from the open disk.
    AutoCharset,
    /// Use the text encoding at this position of the encodings list.
    Charset(usize),
    /// Switch the interface language.
    Language(Lang),
    /// Open the recent file at this position.
    OpenRecent(usize),
}

/// The decimal number that follows `prefix` in `id`, when it is a `usize`.
pub open spec fn number_after(id: Seq<char>, prefix: Seq<char>) -> Option<nat> {
    parse_unsigned(id.skip(prefix.len() as int), 10, usize::MAX as nat)
}

/// The language at position `i` of the language menu.
pub open spec fn lang_at(i: nat) -> Option<Lang> {
    if i == 0 {
        Some(Lang::English)
    } else if i == 1 {
        Some(Lang::Dutch)
    } else {
        None
    }
}

/// What the command `id` asks of the application.
pub open spec fn menu_action(id: Seq<char>) -> MenuAction {
    if id == "app.about"@ {
        MenuAction::ShowAbout
    } else if id == "help.shortcuts"@ {
        MenuAction::ShowShortcuts
    } else if id == "file.new"@ {
        MenuAction::NewDisk
    } else if id == "file.new_window"@ {
        MenuAction::NewWindow
    } else if id == "file.open"@ {
        MenuAction::Open
    } else if id == "file.save_dsk"@ {
        MenuAction::SaveDsk
    } else if id == "file.save_xsa"@ {
        MenuAction::SaveXsa
    } else if id == "file.save_sav"@ {
        MenuAction::SaveSav
    } else if id == "file.close"@ {
        MenuAction::Close
    } else if id == "recent.clear"@ {
        MenuAction::RecentCleared
    } else if id == "encoding.auto"@ {
        MenuAction::AutoCharset
    } else if starts_with(id, "encoding."@) {
        match number_after(id, "encoding."@) {
            Some(i) => MenuAction::Charset(i as usize),
            None => MenuAction::Nothing,
        }
    } else if starts_with(id, "lang."@) {
        match number_after(id, "lang."@) {
            Some(i) => match lang_at(i) {
                Some(l) => MenuAction::Language(l),
                None => MenuAction::Nothing,
            },
            None => MenuAction::Nothing,
        }
    } else if starts_with(id, "recent."@) {
        match number_after(id, "recent."@) {
            Some(i) => MenuAction::OpenRecent(i as usize),
            None => MenuAction::Nothing,
        }
    } else {
        MenuAction::Nothing
    }
}

/// The hex-view options after the command `id`: each toggle flips its flag,
/// the address-base items set it, and the grouping and bytes-per-row items
/// set the value they name.
pub open spec fn hex_after(id: Seq<char>, h: HexViewOptions) -> HexViewOptions {
    if id == "view.line_numbers"@ {
        HexViewOptions { show_line_numbers: !h.show_line_numbers, ..h }
    } else if id == "view.hex"@ {
        HexViewOptions { show_hex: !h.show_hex, ..h }
    } else if id == "view.ascii"@ {
        HexViewOptions { show_ascii: !h.show_ascii, ..h }
    } else if id == "view.columns"@ {
        HexViewOptions { show_columns: !h.show_columns, ..h }
    } else if id == "view.hide_nulls"@ {
        HexViewOptions { hide_null_bytes: !h.hide_null_bytes, ..h }
    } else if id == "view.lnf.hex"@ {
        HexViewOptions { line_number_hex: true, ..h }
    } else if id == "view.lnf.dec"@ {
        HexViewOptions { line_number_hex: false, ..h }
    } else if id == "view.group.none"@ {
        HexViewOptions { grouping: ByteGrouping::Ungrouped, ..h }
    } else if starts_with(id, "view.bpr."@) {
        match number_after(id, "view.bpr."@) {
            Some(n) => HexViewOptions { bytes_per_row: n as usize, ..h },
            None => h,
        }
    } else if starts_with(id, "view.group."@) {
        match number_after(id, "view.group."@) {
            Some(n) => HexViewOptions { grouping: ByteGrouping::Of(n as usize), ..h },
            None => h,
        }
    } else {
        h
    }
}

/// The number after the first `skip` characters of `v`, when it is a
/// decimal `usize`.
fn number_at(v: &[char], skip: usize) -> (r: Option<usize>)
    requires
        skip <= v@.len(),
    ensures
        match r {
            Some(n) => parse_unsigned(v@.skip(skip as int), 10, usize::MAX as nat) == Some(n as nat),
            None => parse_unsigned(v@.skip(skip as int), 10, usize::MAX as nat) is None,
        },
{
    let rest = slice_vec(v, skip, v.len());
    proof {
        assert(rest@ =~= v@.skip(skip as int));
    }
    match parse_unsigned_vec(rest.as_slice(), 10, usize::MAX as u64) {
        Some(n) => Some(n as usize),
        None => None,
    }
}

/// Carries out the menu command `id`: applies what it changes in the
/// settings (View toggles, address base, grouping, bytes per row, emptying
/// the recent files) and returns what it asks of the application.
#[verifier::loop_isolation(false)]
pub fn apply_menu_event(settings: &mut Settings, id: &str) -> (r: MenuAction)
    ensures
        r == menu_action(id@),
        final(settings).hex == hex_after(id@, old(settings).hex),
        final(settings).show_status_bar == (if id@ == "view.status_bar"@ {
            !old(settings).show_status_bar
        } else {
            old(settings).show_status_bar
        }),
        id@ == "recent.clear"@ ==> final(settings).recent@.len() == 0,
        id@ != "recent.clear"@ ==> final(settings).recent@ == old(settings).recent@,
        final(settings).language == old(settings).language,
        final(settings).check_for_updates == old(settings).check_for_updates,
        final(settings).last_update_check == old(settings).last_update_check,
{
    let v = chars_of(id);
    let w = v.as_slice();
    proof {
        reveal_strlit("app.about");
        reveal_strlit("encoding.");
        reveal_strlit("encoding.auto");
        reveal_strlit("file.close");
        reveal_strlit("file.new");
        reveal_strlit("file.new_window");
        reveal_strlit("file.open");
        reveal_strlit("file.save_dsk");
        reveal_strlit("file.save_sav");
        reveal_strlit("file.save_xsa");
        reveal_strlit("help.shortcuts");
        reveal_strlit("lang.");
        reveal_strlit("recent.");
        reveal_strlit("recent.clear");
        reveal_strlit("view.ascii");
        reveal_strlit("view.bpr.");
        reveal_strlit("view.columns");
        reveal_strlit("view.group.");
        reveal_strlit("view.group.none");
        reveal_strlit("view.hex");
        reveal_strlit("view.hide_nulls");
        reveal_strlit("view.line_numbers");
        reveal_strlit("view.lnf.dec");
        reveal_strlit("view.lnf.hex");
        reveal_strlit("view.status_bar");
        let t = id@;
        if starts_with(t, "view.bpr."@) {
            assert(t[0] == t.take(9)[0] && t[5] == t.take(9)[5]);
        }
        if starts_with(t, "view.group."@) {
            assert(t[0] == t.take(11)[0] && t[5] == t.take(11)[5]);
        }
        if starts_with(t, "encoding."@) {
            assert(t[0] == t.take(9)[0]);
        }
        if starts_with(t, "lang."@) {
            assert(t[0] == t.take(5)[0]);
        }
        if starts_with(t, "recent."@) {
            assert(t[0] == t.take(7)[0]);
        }
    }
    if same(w, "app.about") {
        MenuAction::ShowAbout
    } else if same(w, "help.shortcuts") {
        MenuAction::ShowShortcuts
    } else if same(w, "file.new") {
        MenuAction::NewDisk
    } else if same(w, "file.new_window") {
        MenuAction::NewWindow
    } else if same(w, "file.open") {
        MenuAction::Open
    } else if same(w, "file.save_dsk") {
        MenuAction::SaveDsk
    } else if same(w, "file.save_xsa") {
        MenuAction::SaveXsa
    } else if same(w, "file.save_sav") {
        MenuAction::SaveSav
    } else if same(w, "file.close") {
        MenuAction::Close
    } else if same(w, "recent.clear") {
        settings.clear_recent();
        MenuAction::RecentCleared
    } else if same(w, "view.line_numbers") {
        settings.hex.show_line_numbers = !settings.hex.show_line_numbers;
        MenuAction::Nothing
    } else if same(w, "view.hex") {
        settings.hex.show_hex = !settings.hex.show_hex;
        MenuAction::Nothing
    } else if same(w, "view.ascii") {
        settings.hex.show_ascii = !settings.hex.show_ascii;
        MenuAction::Nothing
    } else if same(w, "view.status_bar") {
        settings.show_status_bar = !settings.show_status_bar;
        MenuAction::Nothing
    } else if same(w, "view.columns") {
        settings.hex.show_columns = !settings.hex.show_columns;
        MenuAction::Nothing
    } else if same(w, "view.hide_nulls") {
        settings.hex.hide_null_bytes = !settings.hex.hide_null_bytes;
        MenuAction::Nothing
    } else if same(w, "view.lnf.hex") {
        settings.hex.line_number_hex = true;
        MenuAction::Nothing
    } else if same(w, "view.lnf.dec") {
        settings.hex.line_number_hex = false;
        MenuAction::Nothing
    } else if same(w, "view.group.none") {
        settings.hex.grouping = ByteGrouping::Ungrouped;
        MenuAction::Nothing
    } else if same(w, "encoding.auto") {
        MenuAction::AutoCharset
    } else if starts_with_vec(w, chars_of("encoding.").as_slice()) {
        match number_at(w, 9) {
            Some(i) => MenuAction::Charset(i),
            None => MenuAction::Nothing,
        }
    } else if starts_with_vec(w, chars_of("lang.").as_slice()) {
        match number_at(w, 5) {
            Some(0) => MenuAction::Language(Lang::English),
            Some(1) => MenuAction::Language(Lang::Dutch),
            _ => MenuAction::Nothing,
        }
    } else if starts_with_vec(w, chars_of("recent.").as_slice()) {
        match number_at(w, 7) {
            Some(i) => MenuAction::OpenRecent(i),
            None => MenuAction::Nothing,
        }
    } else if starts_with_vec(w, chars_of("view.bpr.").as_slice()) {
        match number_at(w, 9) {
            Some(n) => {
                settings.hex.bytes_per_row = n;
            },
            None => {},
        }
        MenuAction::Nothing
    } else if starts_with_vec(w, chars_of("view.group.").as_slice()) {
        match number_at(w, 11) {
            Some(n) => {
                settings.hex.grouping = ByteGrouping::Of(n);
            },
            None => {},
        }
        MenuAction::Nothing
    } else {
        MenuAction::Nothing
    }
}

} // verus!
