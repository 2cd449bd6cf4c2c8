//! Host-path helpers: file names, extensions, and the document kinds they
//! mark.
use vstd::prelude::*;

use crate::text::{
    append_chars, chars_eq, chars_of, lower_all, lower_vec, split_on, split_vec, string_from_chars,
};

verus! {

/// The pieces of `parts` other than empty ones and `.`, in order.
pub open spec fn real_parts(parts: Seq<Seq<char>>) -> Seq<Seq<char>>
    decreases parts.len(),
{
    if parts.len() == 0 {
        parts
    } else {
        let d = real_parts(parts.drop_last());
        let p = parts.last();
        if p.len() == 0 || p == seq!['.'] {
            d
        } else {
            d.push(p)
        }
    }
}

/// The final component of a `/`-separated path, as `Path::file_name` reads
/// it: `None` when there is none or it is `..`.
pub open spec fn file_name_of(path: Seq<char>) -> Option<Seq<char>> {
    let comps = real_parts(split_on(path, '/'));
    if comps.len() == 0 || comps.last() == seq!['.', '.'] {
        None
    } else {
        Some(comps.last())
    }
}

/// The index of the last `c` in `s`.
pub open spec fn last_index(s: Seq<char>, c: char) -> Option<int>
    decreases s.len(),
{
    if s.len() == 0 {
        None
    } else if s.last() == c {
        Some(s.len() - 1)
    } else {
        last_index(s.drop_last(), c)
    }
}

/// The extension of a path, as `Path::extension` reads it: the text after
/// the last `.` of the file name, unless the name has no `.` or its only
/// `.` is the first character.
pub open spec fn extension_of(path: Seq<char>) -> Option<Seq<char>> {
    match file_name_of(path) {
        None => None,
        Some(f) => match last_index(f, '.') {
            None => None,
            Some(i) => if i == 0 {
                None
            } else {
                Some(f.skip(i + 1))
            },
        },
    }
}

pub proof fn lemma_last_index(s: Seq<char>, c: char)
    ensures
        last_index(s, c) matches Some(i) ==> 0 <= i < s.len() && s[i] == c,
    decreases s.len(),
{
    if s.len() > 0 && s.last() != c {
        lemma_last_index(s.drop_last(), c);
    }
}

/// The index of the last `c` in `v` (see [`last_index`]).
pub fn last_index_of(v: &[char], c: char) -> (r: Option<usize>)
    ensures
        match r {
            Some(i) => last_index(v@, c) == Some(i as int) && i < v@.len() && v@[i as int] == c,
            None => last_index(v@, c) is None,
        },
{
    let mut k: usize = v.len();
    proof {
        assert(v@.take(v@.len() as int) =~= v@);
    }
    while k > 0 && v[k - 1] != c
        invariant
            k <= v.len(),
            last_index(v@, c) == last_index(v@.take(k as int), c),
        decreases k,
    {
        proof {
            assert(v@.take(k as int).drop_last() =~= v@.take(k - 1));
        }
        k = k - 1;
    }
    if k == 0 {
        proof {
            assert(v@.take(0) =~= Seq::<char>::empty());
        }
        None
    } else {
        proof {
            assert(v@.take(k as int).last() == c);
        }
        Some(k - 1)
    }
}

/// The final component of `path` (see [`file_name_of`]).
pub fn file_name(path: &str) -> (r: Option<Vec<char>>)
    ensures
        match r {
            Some(v) => file_name_of(path@) == Some(v@),
            None => file_name_of(path@) is None,
        },
{
    let v = chars_of(path);
    let parts = split_vec(v.as_slice(), '/');
    let ghost pv = parts@.map_values(|x: Vec<char>| x@);
    let mut last: Option<usize> = None;
    let mut i: usize = 0;
    proof {
        assert(pv.take(0) =~= Seq::<Seq<char>>::empty());
    }
    while i < parts.len()
        invariant
            i <= parts.len(),
            pv == parts@.map_values(|x: Vec<char>| x@),
            match last {
                Some(k) => k < i && real_parts(pv.take(i as int)).len() > 0 && real_parts(
                    pv.take(i as int),
                ).last() == pv[k as int],
                None => real_parts(pv.take(i as int)).len() == 0,
            },
        decreases parts.len() - i,
    {
        proof {
            assert(pv.take(i + 1).drop_last() =~= pv.take(i as int));
            assert(pv.take(i + 1).last() == pv[i as int]);
            assert(pv[i as int] == parts@[i as int]@);
        }
        let p = &parts[i];
        let dot = p.len() == 1 && p[0] == '.';
        proof {
            if p@.len() == 1 {
                if p@[0] == '.' {
                    assert(p@ =~= seq!['.']);
                }
            } else {
                assert(p@ != seq!['.']);
            }
        }
        if p.len() > 0 && !dot {
            last = Some(i);
        }
        i = i + 1;
    }
    proof {
        assert(pv.take(i as int) =~= pv);
    }
    match last {
        None => None,
        Some(k) => {
            let name = parts[k].clone();
            let is_up = name.len() == 2 && name[0] == '.' && name[1] == '.';
            proof {
                assert(name@ == pv[k as int]);
                if name@.len() == 2 {
                    if name@[0] == '.' && name@[1] == '.' {
                        assert(name@ =~= seq!['.', '.']);
                    }
                } else {
                    assert(name@ != seq!['.', '.']);
                }
            }
            if is_up {
                None
            } else {
                Some(name)
            }
        },
    }
}

/// The extension of `path` (see [`extension_of`]).
pub fn extension(path: &str) -> (r: Option<Vec<char>>)
    ensures
        match r {
            Some(v) => extension_of(path@) == Some(v@),
            None => extension_of(path@) is None,
        },
{
    let f = match file_name(path) {
        Some(f) => f,
        None => return None,
    };
    let mut k: usize = f.len();
    proof {
        assert(f@.take(f@.len() as int) =~= f@);
    }
    while k > 0 && f[k - 1] != '.'
        invariant
            k <= f.len(),
            last_index(f@, '.') == last_index(f@.take(k as int), '.'),
        decreases k,
    {
        proof {
            assert(f@.take(k as int).drop_last() =~= f@.take(k - 1));
        }
        k = k - 1;
    }
    proof {
        assert(f@.take(f@.len() as int) =~= f@);
    }
    if k == 0 {
        proof {
            assert(f@.take(0) =~= Seq::<char>::empty());
        }
        return None;
    }
    let i = k - 1;
    proof {
        assert(f@.take(k as int).last() == '.');
        assert(last_index(f@, '.') == Some(i as int));
    }
    if i == 0 {
        return None;
    }
    let mut out: Vec<char> = Vec::new();
    let mut j: usize = k;
    while j < f.len()
        invariant
            k <= j <= f.len(),
            out@ == f@.subrange(k as int, j as int),
        decreases f.len() - j,
    {
        out.push(f[j]);
        j = j + 1;
        proof {
            assert(out@ =~= f@.subrange(k as int, j as int));
        }
    }
    proof {
        assert(out@ =~= f@.skip(k as int));
    }
    Some(out)
}

/// The text of each string.
pub open spec fn strs_view(v: Seq<&str>) -> Seq<Seq<char>> {
    v.map_values(|s: &str| s@)
}

/// Whether `path`'s ASCII-lowercased extension is one of `exts`.
pub open spec fn has_ext_in(path: Seq<char>, exts: Seq<Seq<char>>) -> bool {
    match extension_of(path) {
        Some(e) => exts.contains(lower_all(e)),
        None => false,
    }
}

/// Whether `path`'s lowercased extension is in `exts`.
pub fn ext_in(path: &str, exts: &[&str]) -> (r: bool)
    ensures
        r == has_ext_in(path@, strs_view(exts@)),
{
    let e = match extension(path) {
        Some(e) => e,
        None => return false,
    };
    let low = lower_vec(e.as_slice());
    let mut i: usize = 0;
    while i < exts.len()
        invariant
            i <= exts.len(),
            low@ == lower_all(e@),
            extension_of(path@) == Some(e@),
            forall|k: int| 0 <= k < i ==> #[trigger] strs_view(exts@)[k] != low@,
        decreases exts.len() - i,
    {
        let x = chars_of(exts[i]);
        if chars_eq(x.as_slice(), low.as_slice()) {
            proof {
                assert(strs_view(exts@)[i as int] == low@);
            }
            return true;
        }
        i = i + 1;
    }
    proof {
        if strs_view(exts@).contains(low@) {
            let k = choose|k: int| 0 <= k < strs_view(exts@).len() && strs_view(exts@)[k] == low@;
            assert(strs_view(exts@)[k] != low@);
        }
    }
    false
}

/// Extensions recognized as openable disk images.
pub open spec fn disk_image_exts() -> Seq<Seq<char>> {
    seq!["dsk"@, "di1"@, "ds1"@, "di2"@, "ds2"@, "img"@, "msx"@, "ddi"@, "xsa"@, "dmk"@]
}

/// Extensions recognized as openable tape images.
pub open spec fn tape_exts() -> Seq<Seq<char>> {
    seq!["cas"@, "tsx"@]
}

/// Whether `path`'s extension marks it as an openable disk image.
pub fn is_disk_image(path: &str) -> (r: bool)
    ensures
        r == has_ext_in(path@, disk_image_exts()),
{
    let exts = ["dsk", "di1", "ds1", "di2", "ds2", "img", "msx", "ddi", "xsa", "dmk"];
    let r = ext_in(path, exts.as_slice());
    proof {
        assert(strs_view(exts@) =~= disk_image_exts());
    }
    r
}

/// Whether `path`'s extension marks it as a tape image.
pub fn is_tape(path: &str) -> (r: bool)
    ensures
        r == has_ext_in(path@, tape_exts()),
{
    let exts = ["cas", "tsx"];
    let r = ext_in(path, exts.as_slice());
    proof {
        assert(strs_view(exts@) =~= tape_exts());
    }
    r
}

/// Whether `path` can be opened as a document (disk or tape).
pub fn is_openable(path: &str) -> (r: bool)
    ensures
        r == (has_ext_in(path@, disk_image_exts()) || has_ext_in(path@, tape_exts())),
{
    is_disk_image(path) || is_tape(path)
}

/// A short label for a recent-file path: the file name, falling back to the
/// full path.
pub fn recent_label(path: &str) -> (r: String)
    ensures
        r@ == match file_name_of(path@) {
            Some(n) => n,
            None => path@,
        },
{
    match file_name(path) {
        Some(n) => string_from_chars(n.as_slice()),
        None => path.to_owned(),
    }
}

/// What dropping host files on the window does.
#[derive(Debug, Clone, PartialEq, Eq)]
pub enum DropAction {
    /// Open this path as the document.
    Open(String),
    /// Add the dropped files to the open disk.
    AddToDisk,
    /// Nothing was dropped.
    Nothing,
}

/// What dropping `paths` does: a single disk or tape image opens, replacing
/// the document; otherwise the files are added to the open disk when it is
/// writable, and the first path is tried as a document when it is not.
pub fn drop_action(paths: &[String], writable: bool) -> (r: DropAction)
    ensures
        paths@.len() == 0 ==> r is Nothing,
        paths@.len() == 1 && (has_ext_in(paths@[0]@, disk_image_exts()) || has_ext_in(paths@[0]@, tape_exts()))
            ==> (r matches DropAction::Open(p) && p@ == paths@[0]@),
        paths@.len() > 0 && !(paths@.len() == 1 && (has_ext_in(paths@[0]@, disk_image_exts()) || has_ext_in(
            paths@[0]@,
            tape_exts(),
        ))) ==> if writable {
            r is AddToDisk
        } else {
            r matches DropAction::Open(p) && p@ == paths@[0]@
        },
{
    if paths.len() == 0 {
        return DropAction::Nothing;
    }
    if paths.len() == 1 && is_openable(paths[0].as_str()) {
        return DropAction::Open(string_from_chars(chars_of(paths[0].as_str()).as_slice()));
    }
    if writable {
        DropAction::AddToDisk
    } else {
        DropAction::Open(string_from_chars(chars_of(paths[0].as_str()).as_slice()))
    }
}

/// The default file name of a "Save as" conversion: the document's title
/// without its extension (what precedes its last `.`), then `.` and `ext`.
pub open spec fn converted_name(title: Seq<char>, ext: Seq<char>) -> Seq<char> {
    let stem = match last_index(title, '.') {
        Some(i) => title.take(i),
        None => title,
    };
    stem + seq!['.'] + ext
}

/// The default file name of a "Save as" conversion (see [`converted_name`]).
pub fn converted_file_name(title: &str, ext: &str) -> (r: String)
    ensures
        r@ == converted_name(title@, ext@),
{
    let t = chars_of(title);
    let stem: &[char] = match last_index_of(t.as_slice(), '.') {
        Some(i) => &t.as_slice()[0..i],
        None => t.as_slice(),
    };
    let mut out: Vec<char> = Vec::new();
    append_chars(&mut out, stem);
    out.push('.');
    append_chars(&mut out, chars_of(ext).as_slice());
    proof {
        assert(out@ =~= converted_name(title@, ext@));
    }
    string_from_chars(out.as_slice())
}

} // verus!
