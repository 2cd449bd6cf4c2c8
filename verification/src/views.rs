//! The viewer tabs and top-level views, and their names as given on the
//! screenshot automation's environment.
use vstd::prelude::*;

use crate::paths::last_index;
use crate::text::{
    append_chars, chars_eq, chars_of, digits_of, lower_all, lower_vec, radix_digits, slice_vec, string_from_chars,
};

verus! {

/// What the file viewer shows for the selected file.
#[derive(Debug, Clone, Copy, PartialEq, Eq, Structural)]
pub enum ViewMode {
    Info,
    Hex,
    Text,
    Basic,
    /// Z80/R800 disassembly of machine-code files.
    Disasm,
    Screen,
    /// Contents of a selected `.lzh`/`.lzs`/`.pma` archive file.
    Archive,
}

/// Top-level view. Which tabs are offered depends on the open document:
/// `Files` always; `Sectors`/`Map` for disks; `Analyze` for `.dmk`; `Blocks`
/// for tapes.
#[derive(Debug, Clone, Copy, PartialEq, Eq, Structural)]
pub enum AppView {
    Files,
    Sectors,
    /// The disk-usage map (shown in the menu as "Map").
    DiskMap,
    Stats,
    Analyze,
    Blocks,
}

/// The viewer tab a lower-case name selects.
pub open spec fn view_named(name: Seq<char>) -> Option<ViewMode> {
    if name == "info"@ {
        Some(ViewMode::Info)
    } else if name == "hex"@ {
        Some(ViewMode::Hex)
    } else if name == "text"@ {
        Some(ViewMode::Text)
    } else if name == "basic"@ {
        Some(ViewMode::Basic)
    } else if name == "disasm"@ {
        Some(ViewMode::Disasm)
    } else if name == "screen"@ {
        Some(ViewMode::Screen)
    } else {
        None
    }
}

/// The top-level view a lower-case name selects.
pub open spec fn tab_named(name: Seq<char>) -> Option<AppView> {
    if name == "files"@ {
        Some(AppView::Files)
    } else if name == "sectors"@ {
        Some(AppView::Sectors)
    } else if name == "map"@ {
        Some(AppView::DiskMap)
    } else if name == "stats"@ {
        Some(AppView::Stats)
    } else {
        None
    }
}

/// Whether `v` spells the text `lit`.
fn same(v: &[char], lit: &str) -> (r: bool)
    ensures
        r == (v@ == lit@),
{
    chars_eq(v, chars_of(lit).as_slice())
}

/// The viewer tab named by `s` (`info|hex|text|basic|disasm|screen`, in any
/// ASCII case), or `None`.
pub fn parse_view(s: &str) -> (r: Option<ViewMode>)
    ensures
        r == view_named(lower_all(s@)),
{
    let l = lower_vec(chars_of(s).as_slice());
    let v = l.as_slice();
    if same(v, "info") {
        Some(ViewMode::Info)
    } else if same(v, "hex") {
        Some(ViewMode::Hex)
    } else if same(v, "text") {
        Some(ViewMode::Text)
    } else if same(v, "basic") {
        Some(ViewMode::Basic)
    } else if same(v, "disasm") {
        Some(ViewMode::Disasm)
    } else if same(v, "screen") {
        Some(ViewMode::Screen)
    } else {
        None
    }
}

/// The top-level view named by `s` (`files|sectors|map|stats`, in any ASCII
/// case), or `None`.
pub fn parse_tab(s: &str) -> (r: Option<AppView>)
    ensures
        r == tab_named(lower_all(s@)),
{
    let l = lower_vec(chars_of(s).as_slice());
    let v = l.as_slice();
    if same(v, "files") {
        Some(AppView::Files)
    } else if same(v, "sectors") {
        Some(AppView::Sectors)
    } else if same(v, "map") {
        Some(AppView::DiskMap)
    } else if same(v, "stats") {
        Some(AppView::Stats)
    } else {
        None
    }
}

/// The text after the last `.` of `path`, or all of it when it has none
/// (what `rsplit('.').next()` yields).
pub open spec fn after_last_dot(path: Seq<char>) -> Seq<char> {
    match last_index(path, '.') {
        Some(i) => path.skip(i + 1),
        None => path,
    }
}

/// Extensions that default to the Text view.
pub open spec fn text_exts() -> Seq<Seq<char>> {
    seq![
        "txt"@, "bat"@, "asc"@, "doc"@, "me"@, "ini"@, "cfg"@, "diz"@, "nfo"@, "log"@, "csv"@,
        "md"@, "hlp"@,
    ]
}

/// The viewer tab a file opens in, by its lower-case extension `ext`: archives
/// list their contents, images the Screen decoder supports are shown, BASIC
/// is listed, music files get their Info, machine code is disassembled, text
/// files are shown as text, and anything else as a hex dump. `archive`,
/// `screen` and `music` say whether the file is an archive, a supported image
/// or a music file, as the format libraries judge it.
pub open spec fn default_view(ext: Seq<char>, archive: bool, screen: bool, music: bool) -> ViewMode {
    if archive {
        ViewMode::Archive
    } else if screen {
        ViewMode::Screen
    } else if ext == "bas"@ {
        ViewMode::Basic
    } else if music {
        ViewMode::Info
    } else if ext == "com"@ || ext == "cpm"@ || ext == "bin"@ {
        ViewMode::Disasm
    } else if text_exts().contains(ext) {
        ViewMode::Text
    } else {
        ViewMode::Hex
    }
}

/// The lower-case extension the default view is chosen by: the text after
/// the last `.` of `path` (all of it when it has none).
pub fn view_ext(path: &str) -> (r: String)
    ensures
        r@ == lower_all(after_last_dot(path@)),
{
    let v = chars_of(path);
    let mut k: usize = v.len();
    proof {
        assert(v@.take(v@.len() as int) =~= v@);
    }
    while k > 0 && v[k - 1] != '.'
        invariant
            k <= v.len(),
            last_index(v@, '.') == last_index(v@.take(k as int), '.'),
        decreases k,
    {
        proof {
            assert(v@.take(k as int).drop_last() =~= v@.take(k - 1));
        }
        k = k - 1;
    }
    let tail = if k == 0 {
        proof {
            assert(v@.take(0) =~= Seq::<char>::empty());
        }
        slice_vec(v.as_slice(), 0, v.len())
    } else {
        proof {
            assert(v@.take(k as int).last() == '.');
            assert(last_index(v@, '.') == Some(k - 1));
        }
        slice_vec(v.as_slice(), k, v.len())
    };
    proof {
        assert(tail@ =~= after_last_dot(path@));
    }
    string_from_chars(lower_vec(tail.as_slice()).as_slice())
}

/// Picks a sensible default view mode for a file based on its extension;
/// see [`default_view`] for `archive`, `screen` and `music`.
#[verifier::loop_isolation(false)]
pub fn default_view_mode(path: &str, archive: bool, screen: bool, music: bool) -> (r: ViewMode)
    ensures
        r == default_view(lower_all(after_last_dot(path@)), archive, screen, music),
{
    let e = view_ext(path);
    let ev = chars_of(e.as_str());
    let v = ev.as_slice();
    if archive {
        ViewMode::Archive
    } else if screen {
        ViewMode::Screen
    } else if same(v, "bas") {
        ViewMode::Basic
    } else if music {
        ViewMode::Info
    } else if same(v, "com") || same(v, "cpm") || same(v, "bin") {
        ViewMode::Disasm
    } else {
        let exts = ["txt", "bat", "asc", "doc", "me", "ini", "cfg", "diz", "nfo", "log", "csv", "md", "hlp"];
        let mut i: usize = 0;
        while i < exts.len()
            invariant
                i <= exts@.len(),
                v@ == ev@,
                exts@.len() == text_exts().len(),
                forall|j: int| 0 <= j < exts@.len() ==> (#[trigger] exts@[j])@ == text_exts()[j],
                forall|j: int| 0 <= j < i ==> text_exts()[j] != ev@,
            decreases exts@.len() - i,
        {
            let x: &str = exts[i];
            proof {
                assert(x@ == text_exts()[i as int]) by {
                    assert(x == exts@[i as int]);
                }
            }
            if same(v, x) {
                proof {
                    assert(text_exts()[i as int] == ev@);
                    assert(text_exts().contains(ev@));
                }
                return ViewMode::Text;
            }
            i = i + 1;
        }
        proof {
            assert(!text_exts().contains(ev@));
        }
        ViewMode::Hex
    }
}

/// The tabs of the toolbar: none without a document; otherwise Files, then
/// for a disk Sectors, the Map (not for a partitioned hard disk) and Stats,
/// then Analyze for a `.dmk` disk and Blocks for a tape. `disk` is whether a
/// disk is open and, if so, whether it is partitioned.
pub open spec fn toolbar_tabs(disk: Option<bool>, dmk: bool, tape: bool) -> Seq<AppView> {
    if disk is None && !tape {
        Seq::empty()
    } else {
        seq![AppView::Files] + (match disk {
            Some(partitioned) => if partitioned {
                seq![AppView::Sectors, AppView::Stats]
            } else {
                seq![AppView::Sectors, AppView::DiskMap, AppView::Stats]
            },
            None => Seq::empty(),
        }) + (if dmk {
            seq![AppView::Analyze]
        } else {
            Seq::empty()
        }) + (if tape {
            seq![AppView::Blocks]
        } else {
            Seq::empty()
        })
    }
}

/// The tabs the toolbar offers for the open document (see [`toolbar_tabs`]).
pub fn toolbar_views(disk: Option<bool>, dmk: bool, tape: bool) -> (r: Vec<AppView>)
    ensures
        r@ == toolbar_tabs(disk, dmk, tape),
{
    let mut r: Vec<AppView> = Vec::new();
    if disk.is_none() && !tape {
        return r;
    }
    r.push(AppView::Files);
    let ghost files = r@;
    match disk {
        Some(partitioned) => {
            r.push(AppView::Sectors);
            if !partitioned {
                r.push(AppView::DiskMap);
            }
            r.push(AppView::Stats);
        },
        None => {},
    }
    let ghost with_disk = r@;
    if dmk {
        r.push(AppView::Analyze);
    }
    let ghost with_dmk = r@;
    if tape {
        r.push(AppView::Blocks);
    }
    proof {
        let d: Seq<AppView> = match disk {
            Some(partitioned) => if partitioned {
                seq![AppView::Sectors, AppView::Stats]
            } else {
                seq![AppView::Sectors, AppView::DiskMap, AppView::Stats]
            },
            None => Seq::empty(),
        };
        assert(with_disk =~= files + d);
        assert(with_dmk =~= files + d + (if dmk {
            seq![AppView::Analyze]
        } else {
            Seq::<AppView>::empty()
        }));
        assert(r@ =~= toolbar_tabs(disk, dmk, tape));
    }
    r
}

/// The viewer tabs offered for a file: Info, Hex, Text, BASIC, Disasm and
/// Screen, then Archive when the file is an archive.
pub open spec fn viewer_tabs(archive: bool) -> Seq<ViewMode> {
    seq![ViewMode::Info, ViewMode::Hex, ViewMode::Text, ViewMode::Basic, ViewMode::Disasm, ViewMode::Screen] + (
    if archive {
        seq![ViewMode::Archive]
    } else {
        Seq::empty()
    })
}

/// The viewer tabs offered for a file (see [`viewer_tabs`]).
pub fn viewer_modes(archive: bool) -> (r: Vec<ViewMode>)
    ensures
        r@ == viewer_tabs(archive),
{
    let mut r: Vec<ViewMode> = Vec::new();
    r.push(ViewMode::Info);
    r.push(ViewMode::Hex);
    r.push(ViewMode::Text);
    r.push(ViewMode::Basic);
    r.push(ViewMode::Disasm);
    r.push(ViewMode::Screen);
    if archive {
        r.push(ViewMode::Archive);
    }
    proof {
        assert(r@ =~= viewer_tabs(archive));
    }
    r
}

/// The largest file the hex editor opens (32 KiB).
pub const MAX_HEX_EDIT_BYTES: usize = 32768;

/// Whether the Hex tab offers "Edit hex": the disk is writable and the file
/// is at most [`MAX_HEX_EDIT_BYTES`] long.
pub fn can_edit_hex(writable: bool, len: usize) -> (r: bool)
    ensures
        r == (writable && len <= 32768),
{
    writable && len <= MAX_HEX_EDIT_BYTES
}

/// Whether the viewer shows its Copy button: a file is open and the tab is
/// neither Archive nor Screen (the picture has its own copy menu).
pub fn shows_copy_button(has_content: bool, mode: ViewMode) -> (r: bool)
    ensures
        r == (has_content && !(mode is Archive) && !(mode is Screen)),
{
    has_content && !matches!(mode, ViewMode::Archive | ViewMode::Screen)
}

/// Whether the viewer shows its Find bar: a file is open and the tab is not
/// Archive.
pub fn shows_find_bar(has_content: bool, mode: ViewMode) -> (r: bool)
    ensures
        r == (has_content && !(mode is Archive)),
{
    has_content && !matches!(mode, ViewMode::Archive)
}

/// The search counter `3/12`: the one-based position of the current match
/// and the number of matches.
pub fn match_counter(pos: usize, count: usize) -> (r: String)
    requires
        pos + 1 <= usize::MAX,
    ensures
        r@ == digits_of((pos + 1) as nat, 10) + seq!['/'] + digits_of(count as nat, 10),
{
    let mut out = radix_digits((pos + 1) as u64, 10);
    out.push('/');
    let n = radix_digits(count as u64, 10);
    append_chars(&mut out, n.as_slice());
    string_from_chars(out.as_slice())
}

/// The frame on which the screenshot automation applies its selection, tab
/// and Find overrides (fonts and layout have settled by then).
pub const SHOOT_APPLY_FRAME: u32 = 12;

/// The frame on which the screenshot automation asks for the picture.
pub const SHOOT_SNAP_FRAME: u32 = 30;

/// What the screenshot automation does on a frame.
#[derive(Debug, Clone, Copy, PartialEq, Eq)]
pub enum ShootAction {
    /// Apply the requested selection, tab and Find.
    ApplyOverrides,
    /// Ask for the window's pixels.
    RequestScreenshot,
    /// Keep frames flowing.
    Wait,
}

/// One frame of the screenshot automation: the frame count after this frame
/// (`frame` + 1), and what to do on it.
pub fn shoot_tick(frame: u32) -> (r: (u32, ShootAction))
    requires
        frame < u32::MAX,
    ensures
        r.0 == frame + 1,
        r.1 == (if frame + 1 == 12 {
            ShootAction::ApplyOverrides
        } else if frame + 1 == 30 {
            ShootAction::RequestScreenshot
        } else {
            ShootAction::Wait
        }),
{
    let next = frame + 1;
    let action = if next == SHOOT_APPLY_FRAME {
        ShootAction::ApplyOverrides
    } else if next == SHOOT_SNAP_FRAME {
        ShootAction::RequestScreenshot
    } else {
        ShootAction::Wait
    };
    (next, action)
}

} // verus!



