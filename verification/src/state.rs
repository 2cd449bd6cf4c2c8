//! What a mounted image is made of.
use vstd::prelude::*;

use crate::entry::{lemma_walk_list_concat, walk, walk_list, DirEntry};
use crate::paths::{last_index, last_index_of};
use crate::text::{chars_eq, chars_of, eq_ignore_ascii_case, lower, string_from_chars};

verus! {

/// What the synthetic top-level volume nodes of a multi-volume image stand for.
#[derive(Debug, Clone, Copy, PartialEq, Eq)]
pub enum VolumeKind {
    /// A partition of an openMSX `MSX_IDE` hard-disk image.
    Partition,
    /// A whole floppy inside a file holding several of them back to back.
    Disk,
    /// A disk image stored inside a `.zip` archive.
    Zip,
}

impl VolumeKind {
    /// The letter that starts a volume's path prefix (`P1/…` or `D1/…`).
    pub fn prefix(self) -> (c: char)
        ensures
            c == (if self is Partition { 'P' } else { 'D' }),
    {
        match self {
            VolumeKind::Partition => 'P',
            VolumeKind::Disk | VolumeKind::Zip => 'D',
        }
    }
}

/// Volume serial for a freshly created disk's DOS 2 boot sector, derived from
/// the clock like MSX-DOS 2's FORMAT does (uniqueness, not secrecy, is the
/// goal): the low 32 bits of the whole seconds since the Unix epoch, XOR the
/// nanoseconds past that second.
pub fn new_disk_volume_serial(secs: u64, subsec_nanos: u32) -> (r: u32)
    ensures
        r == (secs as u32) ^ subsec_nanos,
{
    (secs as u32) ^ subsec_nanos
}

/// What precedes the last `/` of a path; none when it has no `/`.
pub open spec fn dir_part(path: Seq<char>) -> Option<Seq<char>> {
    match last_index(path, '/') {
        Some(i) => Some(path.take(i)),
        None => None,
    }
}

/// The stem of a path's last component: what precedes its last `.`, or the
/// whole component when it has none.
pub open spec fn stem_of(path: Seq<char>) -> Seq<char> {
    let name = match last_index(path, '/') {
        Some(i) => path.skip(i + 1),
        None => path,
    };
    match last_index(name, '.') {
        Some(j) => name.take(j),
        None => name,
    }
}

/// Whether two names are equal once ASCII letters are folded to one case.
pub open spec fn same_name_ignoring_case(a: Seq<char>, b: Seq<char>) -> bool {
    a.len() == b.len() && forall|i: int| 0 <= i < a.len() ==> lower(#[trigger] a[i]) == lower(b[i])
}

/// Whether `e` is the companion sought: a file in directory `dir` whose name
/// is `target`, ignoring ASCII case.
pub open spec fn is_companion(e: DirEntry, dir: Option<Seq<char>>, target: Seq<char>) -> bool {
    !e.is_dir && dir_part(e.path@) == dir && same_name_ignoring_case(e.name@, target)
}

/// The first of `s` that is the companion sought.
pub open spec fn first_companion(s: Seq<DirEntry>, dir: Option<Seq<char>>, target: Seq<char>) -> Option<
    DirEntry,
>
    decreases s.len(),
{
    if s.len() == 0 {
        None
    } else if is_companion(s[0], dir, target) {
        Some(s[0])
    } else {
        first_companion(s.drop_first(), dir, target)
    }
}

/// The companion of `base_path` with extension `ext`: among the entries of the
/// tree in walk order, the first file beside `base_path` (same directory)
/// named `stem.ext`, ignoring ASCII case.
pub open spec fn companion_of(tree: Seq<DirEntry>, base_path: Seq<char>, ext: Seq<char>) -> Option<DirEntry> {
    first_companion(walk_list(tree), dir_part(base_path), stem_of(base_path) + seq!['.'] + ext)
}

proof fn lemma_first_companion_concat(
    a: Seq<DirEntry>,
    b: Seq<DirEntry>,
    dir: Option<Seq<char>>,
    target: Seq<char>,
)
    ensures
        first_companion(a + b, dir, target) == match first_companion(a, dir, target) {
            Some(e) => Some(e),
            None => first_companion(b, dir, target),
        },
    decreases a.len(),
{
    if a.len() > 0 {
        assert((a + b).drop_first() =~= a.drop_first() + b);
        lemma_first_companion_concat(a.drop_first(), b, dir, target);
    } else {
        assert(a + b =~= b);
    }
}

fn names_match(a: &[char], b: &[char]) -> (r: bool)
    ensures
        r == same_name_ignoring_case(a@, b@),
{
    if a.len() != b.len() {
        return false;
    }
    let mut i: usize = 0;
    while i < a.len()
        invariant
            a@.len() == b@.len(),
            i <= a@.len(),
            forall|k: int| 0 <= k < i ==> lower(#[trigger] a@[k]) == lower(b@[k]),
        decreases a@.len() - i,
    {
        if !eq_ignore_ascii_case(a[i], b[i]) {
            return false;
        }
        i = i + 1;
    }
    true
}

fn dir_part_exec(path: &[char]) -> (r: Option<&[char]>)
    ensures
        match r {
            Some(d) => dir_part(path@) == Some(d@),
            None => dir_part(path@) is None,
        },
{
    match last_index_of(path, '/') {
        Some(i) => Some(&path[0..i]),
        None => None,
    }
}

fn same_dir(a: Option<&[char]>, b: Option<&[char]>) -> (r: bool)
    ensures
        r == (match (a, b) {
            (Some(x), Some(y)) => x@ == y@,
            (None, None) => true,
            _ => false,
        }),
{
    match (a, b) {
        (Some(x), Some(y)) => chars_eq(x, y),
        (None, None) => true,
        _ => false,
    }
}

fn companion_in_entry<'a>(e: &'a DirEntry, dir: Option<&[char]>, target: &[char]) -> (r: Option<&'a DirEntry>)
    ensures
        ({
            let d = match dir {
                Some(x) => Some(x@),
                None => None,
            };
            match r {
                Some(x) => first_companion(walk(*e), d, target@) == Some(*x),
                None => first_companion(walk(*e), d, target@) is None,
            }
        }),
    decreases e, 2int,
{
    let ghost d = match dir {
        Some(x) => Some(x@),
        None => None,
    };
    proof {
        assert(walk(*e)[0] == *e);
        assert(walk(*e).drop_first() =~= walk_list(e.children@));
        assert(decreases_to!(*e => e.children));
    }
    if !e.is_dir {
        let path = chars_of(e.path.as_str());
        let name = chars_of(e.name.as_str());
        let own = dir_part_exec(path.as_slice());
        if same_dir(own, dir) && names_match(name.as_slice(), target) {
            return Some(e);
        }
    }
    companion_in_list(&e.children, dir, target)
}

fn companion_in_list<'a>(es: &'a Vec<DirEntry>, dir: Option<&[char]>, target: &[char]) -> (r: Option<&'a DirEntry>)
    ensures
        ({
            let d = match dir {
                Some(x) => Some(x@),
                None => None,
            };
            match r {
                Some(x) => first_companion(walk_list(es@), d, target@) == Some(*x),
                None => first_companion(walk_list(es@), d, target@) is None,
            }
        }),
    decreases es@, 1int,
{
    let ghost d = match dir {
        Some(x) => Some(x@),
        None => None,
    };
    let mut i: usize = 0;
    proof {
        assert(es@.subrange(0, 0) =~= Seq::<DirEntry>::empty());
    }
    while i < es.len()
        invariant
            i <= es@.len(),
            d == (match dir {
                Some(x) => Some(x@),
                None => None::<Seq<char>>,
            }),
            first_companion(walk_list(es@.subrange(0, i as int)), d, target@) is None,
        decreases es@.len() - i,
    {
        proof {
            assert(decreases_to!(es@ => es@[i as int]));
        }
        let found = companion_in_entry(&es[i], dir, target);
        proof {
            let pre = es@.subrange(0, i as int);
            let post = es@.subrange(i + 1, es@.len() as int);
            let one = es@.subrange(0, i + 1);
            assert(one.subrange(0, i as int) =~= pre);
            assert(one[i as int] == es@[i as int]);
            assert(walk_list(one) == walk_list(pre) + walk(es@[i as int]));
            assert(es@ =~= one + post);
            lemma_walk_list_concat(one, post);
            lemma_first_companion_concat(walk_list(pre), walk(es@[i as int]), d, target@);
            lemma_first_companion_concat(walk_list(one), walk_list(post), d, target@);
        }
        match found {
            Some(x) => {
                return Some(x);
            },
            None => {},
        }
        i = i + 1;
    }
    proof {
        assert(es@.subrange(0, i as int) =~= es@);
    }
    None
}

/// The path of the companion file of `base_path` with extension `ext` (a
/// `.SC5` picture's `.PL5` palette, say): the first file of the tree, in walk
/// order, in the same directory as `base_path` and named like it with `ext`
/// in place of its extension, ignoring ASCII case.
pub fn companion_path(tree: &Vec<DirEntry>, base_path: &str, ext: &str) -> (r: Option<String>)
    ensures
        match companion_of(tree@, base_path@, ext@) {
            Some(e) => r is Some && r->0@ == e.path@,
            None => r is None,
        },
{
    let base = chars_of(base_path);
    let dir = dir_part_exec(base.as_slice());
    let name: &[char] = match last_index_of(base.as_slice(), '/') {
        Some(i) => &base.as_slice()[i + 1..base.len()],
        None => base.as_slice(),
    };
    let stem: &[char] = match last_index_of(name, '.') {
        Some(j) => &name[0..j],
        None => name,
    };
    let mut target: Vec<char> = Vec::new();
    let mut k: usize = 0;
    while k < stem.len()
        invariant
            k <= stem@.len(),
            target@ == stem@.take(k as int),
        decreases stem@.len() - k,
    {
        target.push(stem[k]);
        k = k + 1;
        proof {
            assert(target@ =~= stem@.take(k as int));
        }
    }
    target.push('.');
    let ext_chars = chars_of(ext);
    let mut k: usize = 0;
    let ghost with_dot = target@;
    while k < ext_chars.len()
        invariant
            k <= ext_chars@.len(),
            target@ == with_dot + ext_chars@.take(k as int),
        decreases ext_chars@.len() - k,
    {
        target.push(ext_chars[k]);
        k = k + 1;
        proof {
            assert(target@ =~= with_dot + ext_chars@.take(k as int));
        }
    }
    proof {
        crate::paths::lemma_last_index(base@, '/');
        assert(stem@.take(stem@.len() as int) =~= stem@);
        assert(ext_chars@.take(ext_chars@.len() as int) =~= ext_chars@);
        assert(target@ =~= stem_of(base_path@) + seq!['.'] + ext@);
    }
    match companion_in_list(tree, dir, target.as_slice()) {
        Some(e) => Some(string_from_chars(chars_of(e.path.as_str()).as_slice())),
        None => None,
    }
}

} // verus!
