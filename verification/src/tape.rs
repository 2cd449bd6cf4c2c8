//! The file list of an open tape image: a stable key for each file, and the
//! title of an open document.
use vstd::prelude::*;

use crate::paths::{file_name, file_name_of};
use crate::text::{
    append_chars, append_str, chars_eq, chars_of, digits_of, pad_left, pad_left_vec, pad_right, pad_right_vec,
    radix_digits, string_from_chars,
};

verus! {

/// The name a tape file is listed under: its own, or `FILE` when it has none.
pub open spec fn base_key(name: Seq<char>) -> Seq<char> {
    if name.len() == 0 { "FILE"@ } else { name }
}

/// How many of the first `j` names are listed as `key`.
pub open spec fn count_listed(names: Seq<Seq<char>>, j: int, key: Seq<char>) -> nat
    decreases j,
{
    if j <= 0 {
        0
    } else {
        count_listed(names, j - 1, key) + if base_key(names[j - 1]) == key { 1nat } else { 0nat }
    }
}

/// The key of file `i`: its listing name, followed by `.n` when `n` earlier
/// files share that name.
pub open spec fn tape_key(names: Seq<Seq<char>>, i: int) -> Seq<char> {
    let n = count_listed(names, i, base_key(names[i]));
    if n == 0 {
        base_key(names[i])
    } else {
        base_key(names[i]) + "."@ + digits_of(n, 10)
    }
}

/// The text of each name.
pub open spec fn names_view(v: Seq<String>) -> Seq<Seq<char>> {
    v.map_values(|s: String| s@)
}

fn base_key_exec(name: &str) -> (r: Vec<char>)
    ensures
        r@ == base_key(name@),
{
    let v = chars_of(name);
    if v.len() == 0 {
        let r = chars_of("FILE");
        r
    } else {
        v
    }
}

/// One stable key per tape file, in tape order, to select and read it by:
/// the file's name (`FILE` when it has none), with `.1`, `.2`, ... added to
/// the second, third, ... file of the same name.
pub fn tape_keys(names: &[String]) -> (r: Vec<String>)
    ensures
        r@.len() == names@.len(),
        forall|i: int| 0 <= i < r@.len() ==> (#[trigger] r@[i])@ == tape_key(names_view(names@), i),
{
    let ghost nv = names_view(names@);
    let mut keys: Vec<String> = Vec::new();
    let mut i: usize = 0;
    while i < names.len()
        invariant
            i <= names@.len(),
            nv == names_view(names@),
            keys@.len() == i,
            forall|k: int| 0 <= k < i ==> (#[trigger] keys@[k])@ == tape_key(nv, k),
        decreases names@.len() - i,
    {
        let base = base_key_exec(names[i].as_str());
        let mut count: u64 = 0;
        let mut j: usize = 0;
        while j < i
            invariant
                j <= i,
                i < names@.len(),
                nv == names_view(names@),
                base@ == base_key(nv[i as int]),
                count == count_listed(nv, j as int, base@),
                count <= j,
            decreases i - j,
        {
            let other = base_key_exec(names[j].as_str());
            if chars_eq(other.as_slice(), base.as_slice()) {
                count = count + 1;
            }
            j = j + 1;
        }
        let key: Vec<char> = if count == 0 {
            base
        } else {
            let mut k = base;
            append_str(&mut k, ".");
            let d = radix_digits(count, 10);
            append_chars(&mut k, d.as_slice());
            proof {
                reveal_strlit(".");
            }
            k
        };
        keys.push(string_from_chars(key.as_slice()));
        i = i + 1;
    }
    keys
}

/// The position of the file whose key is `key`: the first one, if any.
pub fn find_key(keys: &[String], key: &str) -> (r: Option<usize>)
    ensures
        match r {
            Some(i) => i < keys@.len() && keys@[i as int]@ == key@ && forall|k: int| 0 <= k < i ==> keys@[k]@ != key@,
            None => forall|k: int| 0 <= k < keys@.len() ==> keys@[k]@ != key@,
        },
{
    let want = chars_of(key);
    let mut i: usize = 0;
    while i < keys.len()
        invariant
            i <= keys@.len(),
            want@ == key@,
            forall|k: int| 0 <= k < i ==> keys@[k]@ != key@,
        decreases keys@.len() - i,
    {
        let have = chars_of(keys[i].as_str());
        if chars_eq(have.as_slice(), want.as_slice()) {
            return Some(i);
        }
        i = i + 1;
    }
    None
}

/// The short name of an open document: the file name of its path, or
/// `fallback` when it has no path or the path names no file.
pub fn document_title(path: Option<&str>, fallback: &str) -> (r: String)
    ensures
        r@ == match path {
            Some(p) => match file_name_of(p@) {
                Some(n) => n,
                None => fallback@,
            },
            None => fallback@,
        },
{
    match path {
        Some(p) => match file_name(p) {
            Some(n) => string_from_chars(n.as_slice()),
            None => fallback.to_string(),
        },
        None => fallback.to_string(),
    }
}

/// The header of an MSX tape block: what kind of file follows, and its name.
#[derive(Debug, Clone, PartialEq, Eq)]
pub struct MsxHeaderInfo {
    pub kind: String,
    pub name: String,
}

/// One block of a tape image, as the block overview lists it.
#[derive(Debug, Clone, PartialEq, Eq)]
pub enum TapeBlockInfo {
    /// A `#35` custom-info block.
    CustomInfo { id: String, text: String },
    /// A `#32` archive-info block: its fields and their values.
    ArchiveInfo(Vec<(String, String)>),
    /// A `#4B` MSX block, with its header when it starts a file, and the
    /// number of data bytes.
    Msx { header: Option<MsxHeaderInfo>, data_len: usize },
    /// Any other block: its id and length.
    Other { id: u8, len: u64 },
}

/// The block number, right-aligned in three columns.
pub open spec fn block_number(number: nat) -> Seq<char> {
    pad_left(digits_of(number, 10), 3, ' ')
}

/// An indented `field: value` line under a block.
pub open spec fn detail_line(field: Seq<char>, value: Seq<char>) -> Seq<char> {
    "       "@ + field + ": "@ + value
}

/// The detail lines of an archive-info block, one per field.
pub open spec fn archive_lines(pairs: Seq<(String, String)>) -> Seq<Seq<char>>
    decreases pairs.len(),
{
    if pairs.len() == 0 {
        Seq::empty()
    } else {
        archive_lines(pairs.drop_last()).push(detail_line(pairs.last().0@, pairs.last().1@))
    }
}

/// The lines that describe block `number` in the overview, in the style of
/// TSX viewers: a heading, then the block's details.
pub open spec fn block_lines(number: nat, block: TapeBlockInfo) -> Seq<Seq<char>> {
    match block {
        TapeBlockInfo::CustomInfo { id, text } => seq![
            block_number(number) + "  #35 Custom info"@,
            detail_line(id@, text@),
        ],
        TapeBlockInfo::ArchiveInfo(pairs) => seq![block_number(number) + "  #32 Archive info"@]
            + archive_lines(pairs@),
        TapeBlockInfo::Msx { header, data_len } => match header {
            Some(h) => seq![
                block_number(number) + "  #4B MSX block   "@ + h.kind@ + " HEADER ("@ + digits_of(
                    data_len as nat,
                    10,
                ) + " bytes)"@,
                "       Found: "@ + h.name@,
            ],
            None => seq![
                block_number(number) + "  #4B MSX block   ("@ + digits_of(data_len as nat, 10) + " bytes)"@,
            ],
        },
        TapeBlockInfo::Other { id, len } => seq![
            block_number(number) + "  #"@ + pad_left(digits_of(id as nat, 16), 2, '0') + " block       ("@
                + digits_of(len as nat, 10) + " bytes)"@,
        ],
    }
}

fn push_text(lines: &mut Vec<String>, v: &Vec<char>)
    ensures
        final(lines)@.len() == old(lines)@.len() + 1,
        forall|k: int| 0 <= k < old(lines)@.len() ==> final(lines)@[k] == old(lines)@[k],
        final(lines)@[old(lines)@.len() as int]@ == v@,
{
    lines.push(string_from_chars(v.as_slice()));
}

/// The text lines of [`block_lines`].
pub open spec fn lines_view(v: Seq<String>) -> Seq<Seq<char>> {
    v.map_values(|s: String| s@)
}

/// The lines that describe block `number` of a tape in the block overview.
pub fn tape_block_lines(number: usize, block: &TapeBlockInfo) -> (r: Vec<String>)
    ensures
        lines_view(r@) == block_lines(number as nat, *block),
{
    let mut lines: Vec<String> = Vec::new();
    let mut head = pad_left_vec(radix_digits(number as u64, 10), 3, ' ');
    match block {
        TapeBlockInfo::CustomInfo { id, text } => {
            append_str(&mut head, "  #35 Custom info");
            push_text(&mut lines, &head);
            let mut d: Vec<char> = Vec::new();
            append_str(&mut d, "       ");
            append_str(&mut d, id.as_str());
            append_str(&mut d, ": ");
            append_str(&mut d, text.as_str());
            push_text(&mut lines, &d);
            proof {
                assert(lines_view(lines@) =~= block_lines(number as nat, *block));
            }
        },
        TapeBlockInfo::ArchiveInfo(pairs) => {
            append_str(&mut head, "  #32 Archive info");
            push_text(&mut lines, &head);
            let mut i: usize = 0;
            while i < pairs.len()
                invariant
                    i <= pairs@.len(),
                    lines_view(lines@) == seq![head@] + archive_lines(pairs@.take(i as int)),
                decreases pairs@.len() - i,
            {
                let mut d: Vec<char> = Vec::new();
                append_str(&mut d, "       ");
                append_str(&mut d, pairs[i].0.as_str());
                append_str(&mut d, ": ");
                append_str(&mut d, pairs[i].1.as_str());
                let ghost before = lines@;
                push_text(&mut lines, &d);
                proof {
                    assert(pairs@.take(i + 1).drop_last() =~= pairs@.take(i as int));
                    assert(lines_view(lines@) =~= lines_view(before).push(d@));
                    assert(lines_view(lines@) =~= seq![head@] + archive_lines(pairs@.take(i + 1)));
                }
                i = i + 1;
            }
            proof {
                assert(pairs@.take(i as int) =~= pairs@);
                assert(lines_view(lines@) =~= block_lines(number as nat, *block));
            }
        },
        TapeBlockInfo::Msx { header, data_len } => {
            match header {
                Some(h) => {
                    append_str(&mut head, "  #4B MSX block   ");
                    append_str(&mut head, h.kind.as_str());
                    append_str(&mut head, " HEADER (");
                    let n = radix_digits(*data_len as u64, 10);
                    append_chars(&mut head, n.as_slice());
                    append_str(&mut head, " bytes)");
                    push_text(&mut lines, &head);
                    let mut d: Vec<char> = Vec::new();
                    append_str(&mut d, "       Found: ");
                    append_str(&mut d, h.name.as_str());
                    push_text(&mut lines, &d);
                    proof {
                        assert(lines_view(lines@) =~= block_lines(number as nat, *block));
                    }
                },
                None => {
                    append_str(&mut head, "  #4B MSX block   (");
                    let n = radix_digits(*data_len as u64, 10);
                    append_chars(&mut head, n.as_slice());
                    append_str(&mut head, " bytes)");
                    push_text(&mut lines, &head);
                    proof {
                        assert(lines_view(lines@) =~= block_lines(number as nat, *block));
                    }
                },
            }
        },
        TapeBlockInfo::Other { id, len } => {
            append_str(&mut head, "  #");
            let h = pad_left_vec(radix_digits(*id as u64, 16), 2, '0');
            append_chars(&mut head, h.as_slice());
            append_str(&mut head, " block       (");
            let n = radix_digits(*len, 10);
            append_chars(&mut head, n.as_slice());
            append_str(&mut head, " bytes)");
            push_text(&mut lines, &head);
            proof {
                assert(lines_view(lines@) =~= block_lines(number as nat, *block));
            }
        },
    }
    lines
}

/// The columns after a tape file's name: its kind left-aligned in seven
/// columns, then its size right-aligned in eight.
pub open spec fn tape_file_cols(kind: Seq<char>, len: nat) -> Seq<char> {
    pad_right(kind, 7) + seq![' '] + pad_left(digits_of(len, 10), 8, ' ')
}

/// The kind and size columns of a tape file's row.
pub fn tape_file_columns(kind: &str, len: usize) -> (r: String)
    ensures
        r@ == tape_file_cols(kind@, len as nat),
{
    let mut out = pad_right_vec(chars_of(kind), 7);
    out.push(' ');
    let n = pad_left_vec(radix_digits(len as u64, 10), 8, ' ');
    append_chars(&mut out, n.as_slice());
    string_from_chars(out.as_slice())
}

} // verus!
