//! The plain-text File Info report that the Copy button puts on the
//! clipboard: filesystem facts, what the content inspection found, and the
//! checksums.

use vstd::prelude::*;

use crate::entry::DirEntry;
use crate::names::{after_last_sep, base_name};
use crate::render::{attribute_flags, format_attributes, format_timestamp, timestamp_text};
use crate::text::{append_chars, append_str, chars_of, digits_of, pad_left, pad_left_vec, radix_digits, string_from_chars};

verus! {

/// A BSAVE header: load, end and run addresses, and how many data bytes follow.
#[derive(Debug, Clone, Copy, PartialEq, Eq)]
pub struct BloadFacts {
    pub start: u16,
    pub end: u16,
    pub exec_addr: u16,
    pub data_len: u64,
}

/// Tags read from a music file.
#[derive(Debug, Clone, PartialEq, Eq)]
pub struct MusicFacts {
    pub format: String,
    pub title: Option<String>,
    pub author: Option<String>,
    pub positions: Option<u64>,
    pub channels: Option<u64>,
    pub subsongs: Option<u64>,
    pub extra: Vec<(String, String)>,
}

/// What the inspection of a file's content found.
#[derive(Debug, Clone, PartialEq, Eq)]
pub struct FileFacts {
    pub description: Option<String>,
    pub bload: Option<BloadFacts>,
    pub graphics: Option<String>,
    pub music: Option<MusicFacts>,
}

/// One report line: `label: value` and a newline.
pub open spec fn line(label: Seq<char>, value: Seq<char>) -> Seq<char> {
    label + ": "@ + value + "\n"@
}

/// A line for an optional text value; nothing when it is absent.
pub open spec fn opt_line(label: Seq<char>, value: Option<String>) -> Seq<char> {
    match value {
        Some(v) => line(label, v@),
        None => Seq::empty(),
    }
}

/// A line for an optional count, in decimal; nothing when it is absent.
pub open spec fn count_line(label: Seq<char>, value: Option<u64>) -> Seq<char> {
    match value {
        Some(n) => line(label, digits_of(n as nat, 10)),
        None => Seq::empty(),
    }
}

/// A 16-bit address as four uppercase hex digits.
pub open spec fn hex4(n: u16) -> Seq<char> {
    pad_left(digits_of(n as nat, 16), 4, '0')
}

/// `start=0x8000 end=0x80FF exec=0x8000 (256 bytes)`.
pub open spec fn bload_text(b: BloadFacts) -> Seq<char> {
    "start=0x"@ + hex4(b.start) + " end=0x"@ + hex4(b.end) + " exec=0x"@ + hex4(b.exec_addr) + " ("@
        + digits_of(b.data_len as nat, 10) + " bytes)"@
}

/// One line per extra music tag, in order.
pub open spec fn extra_lines(extra: Seq<(String, String)>) -> Seq<char>
    decreases extra.len(),
{
    if extra.len() == 0 {
        Seq::empty()
    } else {
        extra_lines(extra.drop_last()) + line(extra.last().0@, extra.last().1@)
    }
}

/// The music lines: the format, then each tag that is present (a subsong
/// count only when it is positive), then the extra tags.
pub open spec fn music_text(m: MusicFacts) -> Seq<char> {
    line("Music format"@, m.format@) + opt_line("Title"@, m.title) + opt_line("Author"@, m.author)
        + count_line("Positions"@, m.positions) + count_line("Channels"@, m.channels) + (match m.subsongs {
        Some(s) => if s > 0 {
            line("Subsongs"@, digits_of(s as nat, 10))
        } else {
            Seq::empty()
        },
        None => Seq::empty(),
    }) + extra_lines(m.extra@)
}

/// The directory-entry lines: the modification time when there is one, and
/// the attribute flags.
pub open spec fn entry_text(e: DirEntry) -> Seq<char> {
    (if timestamp_text(e.modified).len() == 0 {
        Seq::empty()
    } else {
        line("Modified"@, timestamp_text(e.modified))
    }) + line("Attributes"@, attribute_flags(e.attributes))
}

/// The lines of a directory entry, when the file has one.
pub open spec fn entry_part(entry: Option<DirEntry>) -> Seq<char> {
    match entry {
        Some(e) => entry_text(e),
        None => Seq::empty(),
    }
}

/// The BSAVE header line, when the file has one.
pub open spec fn bload_part(bload: Option<BloadFacts>) -> Seq<char> {
    match bload {
        Some(b) => line("BSAVE header"@, bload_text(b)),
        None => Seq::empty(),
    }
}

/// The music lines, when the file is music.
pub open spec fn music_part(music: Option<MusicFacts>) -> Seq<char> {
    match music {
        Some(m) => music_text(m),
        None => Seq::empty(),
    }
}

/// The whole report. The size is the entry's when there is one, else the
/// length of the file's bytes.
pub open spec fn fileinfo_text(
    path: Seq<char>,
    byte_len: nat,
    entry: Option<DirEntry>,
    facts: FileFacts,
    crc32: Seq<char>,
    sha1: Seq<char>,
) -> Seq<char> {
    let size = match entry {
        Some(e) => e.size as nat,
        None => byte_len,
    };
    line("Name"@, after_last_sep(path)) + line("Size"@, digits_of(size, 10) + " bytes"@) + entry_part(
        entry,
    ) + opt_line("Description"@, facts.description) + bload_part(facts.bload) + opt_line(
        "Graphics"@,
        facts.graphics,
    ) + music_part(facts.music) + line("CRC32"@, crc32) + line("SHA-1"@, sha1)
}

fn push_line(out: &mut Vec<char>, label: &str, value: &[char])
    ensures
        final(out)@ == old(out)@ + line(label@, value@),
{
    let ghost start = out@;
    append_str(out, label);
    append_str(out, ": ");
    append_chars(out, value);
    append_str(out, "\n");
    proof {
        assert(out@ =~= start + line(label@, value@));
    }
}

fn push_opt_line(out: &mut Vec<char>, label: &str, value: &Option<String>)
    ensures
        final(out)@ == old(out)@ + opt_line(label@, *value),
{
    match value {
        Some(v) => {
            let chars = chars_of(v.as_str());
            push_line(out, label, chars.as_slice());
        },
        None => {
            proof {
                assert(out@ =~= out@ + Seq::<char>::empty());
            }
        },
    }
}

fn push_count_line(out: &mut Vec<char>, label: &str, value: Option<u64>)
    ensures
        final(out)@ == old(out)@ + count_line(label@, value),
{
    match value {
        Some(n) => {
            let digits = radix_digits(n, 10);
            push_line(out, label, digits.as_slice());
        },
        None => {
            proof {
                assert(out@ =~= out@ + Seq::<char>::empty());
            }
        },
    }
}

fn hex4_exec(n: u16) -> (r: Vec<char>)
    ensures
        r@ == hex4(n),
{
    pad_left_vec(radix_digits(n as u64, 16), 4, '0')
}

fn push_bload(out: &mut Vec<char>, b: BloadFacts)
    ensures
        final(out)@ == old(out)@ + line("BSAVE header"@, bload_text(b)),
{
    let mut v: Vec<char> = Vec::new();
    append_str(&mut v, "start=0x");
    let h = hex4_exec(b.start);
    append_chars(&mut v, h.as_slice());
    append_str(&mut v, " end=0x");
    let h = hex4_exec(b.end);
    append_chars(&mut v, h.as_slice());
    append_str(&mut v, " exec=0x");
    let h = hex4_exec(b.exec_addr);
    append_chars(&mut v, h.as_slice());
    append_str(&mut v, " (");
    let d = radix_digits(b.data_len, 10);
    append_chars(&mut v, d.as_slice());
    append_str(&mut v, " bytes)");
    proof {
        assert(v@ =~= bload_text(b));
    }
    push_line(out, "BSAVE header", v.as_slice());
}

fn push_extra(out: &mut Vec<char>, extra: &Vec<(String, String)>)
    ensures
        final(out)@ == old(out)@ + extra_lines(extra@),
{
    let ghost start = out@;
    let mut i: usize = 0;
    while i < extra.len()
        invariant
            i <= extra@.len(),
            out@ == start + extra_lines(extra@.take(i as int)),
        decreases extra@.len() - i,
    {
        let value = chars_of(extra[i].1.as_str());
        let ghost before = out@;
        push_line(out, extra[i].0.as_str(), value.as_slice());
        proof {
            assert(extra@.take(i + 1).drop_last() =~= extra@.take(i as int));
            assert(out@ =~= start + extra_lines(extra@.take(i + 1)));
        }
        i = i + 1;
    }
    proof {
        assert(extra@.take(i as int) =~= extra@);
    }
}

fn push_music(out: &mut Vec<char>, m: &MusicFacts)
    ensures
        final(out)@ == old(out)@ + music_text(*m),
{
    let ghost start = out@;
    let format = chars_of(m.format.as_str());
    push_line(out, "Music format", format.as_slice());
    push_opt_line(out, "Title", &m.title);
    push_opt_line(out, "Author", &m.author);
    push_count_line(out, "Positions", m.positions);
    push_count_line(out, "Channels", m.channels);
    let ghost mid = out@;
    match m.subsongs {
        Some(s) => {
            if s > 0 {
                let d = radix_digits(s, 10);
                push_line(out, "Subsongs", d.as_slice());
            }
        },
        None => {},
    }
    let ghost subsongs: Seq<char> = match m.subsongs {
        Some(s) => if s > 0 {
            line("Subsongs"@, digits_of(s as nat, 10))
        } else {
            Seq::empty()
        },
        None => Seq::empty(),
    };
    proof {
        assert(out@ =~= mid + subsongs);
    }
    push_extra(out, &m.extra);
    proof {
        assert(out@ =~= start + music_text(*m));
    }
}

/// The File Info report for the file at `path` with content `bytes`: its
/// directory entry when it lives on a disk, what the content inspection found
/// in it, and its CRC-32 and SHA-1 in hex.
pub fn format_fileinfo_text(
    path: &str,
    bytes: &[u8],
    entry: Option<&DirEntry>,
    facts: &FileFacts,
    crc32_hex: &str,
    sha1_hex: &str,
) -> (r: String)
    ensures
        r@ == fileinfo_text(
            path@,
            bytes@.len(),
            match entry {
                Some(e) => Some(*e),
                None => None,
            },
            *facts,
            crc32_hex@,
            sha1_hex@,
        ),
{
    let ghost entry_value: Option<DirEntry> = match entry {
        Some(e) => Some(*e),
        None => None,
    };
    let mut out: Vec<char> = Vec::new();
    let name = base_name(path);
    let name_chars = chars_of(name.as_str());
    push_line(&mut out, "Name", name_chars.as_slice());
    let size: u64 = match entry {
        Some(e) => e.size,
        None => bytes.len() as u64,
    };
    let mut size_text = radix_digits(size, 10);
    append_str(&mut size_text, " bytes");
    push_line(&mut out, "Size", size_text.as_slice());
    let ghost after_size = out@;
    match entry {
        Some(e) => {
            let ts = format_timestamp(e.modified);
            let ghost before = out@;
            let ts_chars = chars_of(ts.as_str());
            if ts_chars.len() > 0 {
                push_line(&mut out, "Modified", ts_chars.as_slice());
            }
            let attrs = format_attributes(e.attributes);
            let attr_chars = chars_of(attrs.as_str());
            push_line(&mut out, "Attributes", attr_chars.as_slice());
            proof {
                assert(out@ =~= before + entry_text(*e));
            }
        },
        None => {
            proof {
                assert(out@ =~= out@ + Seq::<char>::empty());
            }
        },
    }
    assert(out@ == after_size + entry_part(entry_value));
    push_opt_line(&mut out, "Description", &facts.description);
    let ghost before_bload = out@;
    match facts.bload {
        Some(b) => push_bload(&mut out, b),
        None => {},
    }
    assert(out@ =~= before_bload + bload_part(facts.bload));
    push_opt_line(&mut out, "Graphics", &facts.graphics);
    let ghost before_music = out@;
    match &facts.music {
        Some(m) => push_music(&mut out, m),
        None => {},
    }
    assert(out@ =~= before_music + music_part(facts.music));
    let crc = chars_of(crc32_hex);
    push_line(&mut out, "CRC32", crc.as_slice());
    let sha = chars_of(sha1_hex);
    push_line(&mut out, "SHA-1", sha.as_slice());
    proof {
        assert(out@ =~= fileinfo_text(path@, bytes@.len(), entry_value, *facts, crc32_hex@, sha1_hex@));
    }
    string_from_chars(out.as_slice())
}

} // verus!
