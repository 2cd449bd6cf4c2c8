//! Path arithmetic and directory summaries for the file tree.
use vstd::prelude::*;

use crate::entry::{walk, walk_list, DirEntry};
use crate::hexlayout::hex_pair;
use crate::paths::{last_index, last_index_of};
use crate::text::{append_chars, append_str, chars_of, pad_left_vec, radix_digits, string_from_chars};

verus! {

/// The folder part of a slash path: everything before its last `/`, or the
/// empty (root) path when it has none.
pub open spec fn parent_of(path: Seq<char>) -> Seq<char>
    decreases path.len(),
{
    if path.len() == 0 {
        path
    } else if path.last() == '/' {
        path.drop_last()
    } else {
        parent_of(path.drop_last())
    }
}

/// The directory an add operation targets, given the row it was invoked on:
/// a directory (or the root, whose path is empty) targets itself; a file
/// targets its containing folder.
pub fn add_target_dir(path: &str, is_dir: bool) -> (r: String)
    ensures
        r@ == (if is_dir { path@ } else { parent_of(path@) }),
{
    let v = chars_of(path);
    if is_dir {
        return string_from_chars(v.as_slice());
    }
    let mut b: usize = v.len();
    proof {
        assert(v@.take(b as int) =~= v@);
    }
    while b > 0 && v[b - 1] != '/'
        invariant
            b <= v.len(),
            parent_of(v@) == parent_of(v@.take(b as int)),
        decreases b,
    {
        proof {
            assert(v@.take(b as int).drop_last() =~= v@.take(b - 1));
        }
        b = b - 1;
    }
    let end: usize = if b > 0 { b - 1 } else { 0 };
    proof {
        if b > 0 {
            assert(v@.take(b as int).drop_last() =~= v@.take(end as int));
        } else {
            assert(v@.take(0) =~= Seq::<char>::empty());
        }
    }
    let mut r: Vec<char> = Vec::new();
    let mut i: usize = 0;
    while i < end
        invariant
            i <= end <= v.len(),
            r@ == v@.take(i as int),
        decreases end - i,
    {
        r.push(v[i]);
        i = i + 1;
        proof {
            assert(r@ =~= v@.take(i as int));
        }
    }
    string_from_chars(r.as_slice())
}

/// A directory joined with a child name into a slash path; the empty (root)
/// directory yields the bare name.
pub open spec fn joined(dir: Seq<char>, name: Seq<char>) -> Seq<char> {
    if dir.len() == 0 {
        name
    } else {
        dir + seq!['/'] + name
    }
}

/// Join a directory and a child name into a slash path; the empty (root)
/// directory yields the bare name.
pub fn child_path(dir: &str, name: &str) -> (r: String)
    ensures
        r@ == joined(dir@, name@),
{
    let d = chars_of(dir);
    let mut out: Vec<char> = Vec::new();
    if d.len() > 0 {
        append_chars(&mut out, d.as_slice());
        out.push('/');
    }
    append_str(&mut out, name);
    proof {
        assert(out@ =~= joined(dir@, name@));
    }
    string_from_chars(out.as_slice())
}

/// The path an entry takes when renamed to `base`: `base` in the entry's own
/// folder (before the last `/` of `path`), or `base` alone at the top level.
pub open spec fn renamed(path: Seq<char>, base: Seq<char>) -> Seq<char> {
    match last_index(path, '/') {
        Some(i) => path.take(i) + seq!['/'] + base,
        None => base,
    }
}

/// The path of the entry at `path` once renamed to `base`.
pub fn renamed_path(path: &str, base: &str) -> (r: String)
    ensures
        r@ == renamed(path@, base@),
{
    let p = chars_of(path);
    let mut out: Vec<char> = Vec::new();
    match last_index_of(p.as_slice(), '/') {
        Some(i) => {
            let parent = &p.as_slice()[0..i];
            append_chars(&mut out, parent);
            out.push('/');
        },
        None => {},
    }
    append_str(&mut out, base);
    proof {
        assert(out@ =~= renamed(path@, base@));
    }
    string_from_chars(out.as_slice())
}

/// The paths to delete to remove `e` and everything under it: each child's
/// removal order in turn, then `e` itself (descendants first, `e` last).
pub open spec fn removal_order(e: DirEntry) -> Seq<Seq<char>>
    decreases e, 1int,
{
    removal_order_list(e.children@) + seq![e.path@]
}

/// The removal orders of `es`, one after another.
pub open spec fn removal_order_list(es: Seq<DirEntry>) -> Seq<Seq<char>>
    decreases es, 0int,
{
    if es.len() == 0 {
        Seq::empty()
    } else {
        removal_order_list(es.subrange(0, es.len() - 1)) + removal_order(es[es.len() - 1])
    }
}

/// Paths to delete to remove `entry` and everything under it, ordered so
/// each directory is emptied before it is removed (descendants first,
/// `entry` last).
pub fn removal_paths(entry: &DirEntry) -> (r: Vec<String>)
    ensures
        r@.map_values(|p: String| p@) == removal_order(*entry),
{
    let mut out: Vec<String> = Vec::new();
    push_removal_paths(entry, &mut out);
    proof {
        assert(out@.map_values(|p: String| p@) =~= removal_order(*entry));
    }
    out
}

/// Appends the removal order of `entry` to `out`.
pub fn push_removal_paths(entry: &DirEntry, out: &mut Vec<String>)
    ensures
        final(out)@.map_values(|p: String| p@) == old(out)@.map_values(|p: String| p@) + removal_order(*entry),
    decreases entry,
{
    let ghost start = out@.map_values(|p: String| p@);
    let mut i: usize = 0;
    let ghost kids = entry.children@;
    proof {
        assert(kids.subrange(0, 0) =~= Seq::<DirEntry>::empty());
        assert(start + removal_order_list(kids.subrange(0, 0)) =~= start);
    }
    while i < entry.children.len()
        invariant
            i <= entry.children.len(),
            kids == entry.children@,
            out@.map_values(|p: String| p@) == start + removal_order_list(kids.subrange(0, i as int)),
        decreases entry.children.len() - i,
    {
        proof {
            assert(kids.subrange(0, i + 1).subrange(0, i as int) =~= kids.subrange(0, i as int));
            assert(kids.subrange(0, i + 1)[i as int] == kids[i as int]);
            assert(decreases_to!(*entry => entry.children));
            assert(decreases_to!(entry.children => entry.children@));
            assert(decreases_to!(entry.children@ => entry.children@[i as int]));
        }
        push_removal_paths(&entry.children[i], out);
        proof {
            assert(out@.map_values(|p: String| p@) =~= start + removal_order_list(kids.subrange(0, i + 1)));
        }
        i = i + 1;
    }
    proof {
        assert(kids.subrange(0, i as int) =~= kids);
    }
    let ghost before = out@;
    let p = entry.path.clone();
    out.push(p);
    proof {
        assert(out@.map_values(|p: String| p@) =~= before.map_values(|p: String| p@).push(entry.path@));
        assert(out@.map_values(|p: String| p@) =~= start + removal_order(*entry));
    }
}

} // verus!

verus! {

/// The paths of the entries of `s`, in order.
pub open spec fn paths_in(s: Seq<DirEntry>) -> Seq<Seq<char>> {
    s.map_values(|x: DirEntry| x.path@)
}

/// Removing `e` deletes exactly the entries of its subtree, each once, and
/// `e` itself last.
pub proof fn lemma_removal_order_is_the_subtree(e: DirEntry)
    ensures
        removal_order(e).to_multiset() == paths_in(walk(e)).to_multiset(),
        removal_order(e).len() == walk(e).len(),
        removal_order(e).last() == e.path@,
    decreases e, 1int,
{
    assert(decreases_to!(e => e.children));
    assert(decreases_to!(e.children => e.children@));
    lemma_removal_list_is_the_walk(e.children@);
    let kids = removal_order_list(e.children@);
    let w = walk_list(e.children@);
    vstd::seq_lib::lemma_multiset_commutative(kids, seq![e.path@]);
    vstd::seq_lib::lemma_multiset_commutative(seq![e.path@], paths_in(w));
    assert(paths_in(walk(e)) =~= seq![e.path@] + paths_in(w));
    assert(removal_order(e).to_multiset() =~= paths_in(walk(e)).to_multiset());
}

/// The removal orders of `es`, one after another, delete exactly the entries
/// of their walks.
proof fn lemma_removal_list_is_the_walk(es: Seq<DirEntry>)
    ensures
        removal_order_list(es).to_multiset() == paths_in(walk_list(es)).to_multiset(),
        removal_order_list(es).len() == walk_list(es).len(),
    decreases es, 0int,
{
    if es.len() > 0 {
        let init = es.subrange(0, es.len() - 1);
        let last = es[es.len() - 1];
        lemma_removal_list_is_the_walk(init);
        lemma_removal_order_is_the_subtree(last);
        vstd::seq_lib::lemma_multiset_commutative(removal_order_list(init), removal_order(last));
        vstd::seq_lib::lemma_multiset_commutative(paths_in(walk_list(init)), paths_in(walk(last)));
        assert(paths_in(walk_list(es)) =~= paths_in(walk_list(init)) + paths_in(walk(last)));
    } else {
        assert(removal_order_list(es) =~= paths_in(walk_list(es)));
    }
}

/// How many of `s` are files.
pub open spec fn count_files(s: Seq<DirEntry>) -> nat
    decreases s.len(),
{
    if s.len() == 0 {
        0
    } else {
        count_files(s.drop_last()) + if s.last().is_dir { 0nat } else { 1nat }
    }
}

/// How many of `s` are directories.
pub open spec fn count_dirs(s: Seq<DirEntry>) -> nat
    decreases s.len(),
{
    if s.len() == 0 {
        0
    } else {
        count_dirs(s.drop_last()) + if s.last().is_dir { 1nat } else { 0nat }
    }
}

/// The summed size of the files among `s`.
pub open spec fn file_bytes(s: Seq<DirEntry>) -> nat
    decreases s.len(),
{
    if s.len() == 0 {
        0
    } else {
        file_bytes(s.drop_last()) + if s.last().is_dir { 0nat } else { s.last().size as nat }
    }
}

/// The three tallies are additive over concatenation.
proof fn lemma_tallies_add(a: Seq<DirEntry>, b: Seq<DirEntry>)
    ensures
        count_files(a + b) == count_files(a) + count_files(b),
        count_dirs(a + b) == count_dirs(a) + count_dirs(b),
        file_bytes(a + b) == file_bytes(a) + file_bytes(b),
    decreases b.len(),
{
    if b.len() == 0 {
        assert(a + b =~= a);
    } else {
        lemma_tallies_add(a, b.drop_last());
        assert((a + b).drop_last() =~= a + b.drop_last());
        assert((a + b).last() == b.last());
    }
}

/// File and subdirectory tallies for a directory: immediate child counts plus
/// recursive totals and the summed byte size of every descendant file.
#[derive(Debug, Clone, Copy, PartialEq, Eq)]
pub struct DirStats {
    pub files: usize,
    pub dirs: usize,
    pub total_files: usize,
    pub total_dirs: usize,
    pub total_bytes: u64,
}

/// The running totals while walking a subtree.
struct Tally {
    files: usize,
    dirs: usize,
    bytes: u64,
}

/// Adds the walk of `e` to the running totals.
fn tally(e: &DirEntry, t: &mut Tally)
    requires
        old(t).files + count_files(walk(*e)) <= usize::MAX,
        old(t).dirs + count_dirs(walk(*e)) <= usize::MAX,
        old(t).bytes + file_bytes(walk(*e)) <= u64::MAX,
    ensures
        final(t).files == old(t).files + count_files(walk(*e)),
        final(t).dirs == old(t).dirs + count_dirs(walk(*e)),
        final(t).bytes == old(t).bytes + file_bytes(walk(*e)),
    decreases e, 2int,
{
    proof {
        assert(seq![*e].drop_last() =~= Seq::<DirEntry>::empty());
        assert(seq![*e].last() == *e);
        assert(count_files(Seq::<DirEntry>::empty()) == 0);
        assert(count_dirs(Seq::<DirEntry>::empty()) == 0);
        assert(file_bytes(Seq::<DirEntry>::empty()) == 0);
        assert(count_files(seq![*e]) == if e.is_dir { 0nat } else { 1nat });
        assert(count_dirs(seq![*e]) == if e.is_dir { 1nat } else { 0nat });
        assert(file_bytes(seq![*e]) == if e.is_dir { 0nat } else { e.size as nat });
        lemma_tallies_add(seq![*e], walk_list(e.children@));
        assert(walk(*e) == seq![*e] + walk_list(e.children@));
        assert(decreases_to!(*e => e.children));
        assert(decreases_to!(e.children => e.children@));
    }
    if e.is_dir {
        t.dirs = t.dirs + 1;
    } else {
        t.files = t.files + 1;
        t.bytes = t.bytes + e.size;
    }
    tally_list(&e.children, t);
}

/// Adds the walks of `es` to the running totals.
fn tally_list(es: &Vec<DirEntry>, t: &mut Tally)
    requires
        old(t).files + count_files(walk_list(es@)) <= usize::MAX,
        old(t).dirs + count_dirs(walk_list(es@)) <= usize::MAX,
        old(t).bytes + file_bytes(walk_list(es@)) <= u64::MAX,
    ensures
        final(t).files == old(t).files + count_files(walk_list(es@)),
        final(t).dirs == old(t).dirs + count_dirs(walk_list(es@)),
        final(t).bytes == old(t).bytes + file_bytes(walk_list(es@)),
    decreases es@, 1int,
{
    let ghost f0 = t.files;
    let ghost d0 = t.dirs;
    let ghost b0 = t.bytes;
    let mut i: usize = 0;
    proof {
        assert(es@.subrange(0, 0) =~= Seq::<DirEntry>::empty());
        lemma_walk_list_prefix(es@, 0);
    }
    while i < es.len()
        invariant
            i <= es.len(),
            f0 + count_files(walk_list(es@)) <= usize::MAX,
            d0 + count_dirs(walk_list(es@)) <= usize::MAX,
            b0 + file_bytes(walk_list(es@)) <= u64::MAX,
            t.files == f0 + count_files(walk_list(es@.subrange(0, i as int))),
            t.dirs == d0 + count_dirs(walk_list(es@.subrange(0, i as int))),
            t.bytes == b0 + file_bytes(walk_list(es@.subrange(0, i as int))),
        decreases es.len() - i,
    {
        proof {
            let pre = es@.subrange(0, i + 1);
            assert(pre.subrange(0, i as int) =~= es@.subrange(0, i as int));
            assert(pre[i as int] == es@[i as int]);
            lemma_tallies_add(walk_list(es@.subrange(0, i as int)), walk(es@[i as int]));
            lemma_walk_list_prefix(es@, i + 1);
            assert(decreases_to!(es@ => es@[i as int]));
        }
        tally(&es[i], t);
        i = i + 1;
    }
    proof {
        assert(es@.subrange(0, i as int) =~= es@);
    }
}

/// The walk of a prefix of `es` is a prefix of the walk of `es`, so its
/// tallies are no larger.
proof fn lemma_walk_list_prefix(es: Seq<DirEntry>, k: int)
    requires
        0 <= k <= es.len(),
    ensures
        count_files(walk_list(es.subrange(0, k))) <= count_files(walk_list(es)),
        count_dirs(walk_list(es.subrange(0, k))) <= count_dirs(walk_list(es)),
        file_bytes(walk_list(es.subrange(0, k))) <= file_bytes(walk_list(es)),
    decreases es.len() - k,
{
    if k < es.len() {
        let pre = es.subrange(0, k + 1);
        assert(pre.subrange(0, k) =~= es.subrange(0, k));
        lemma_tallies_add(walk_list(es.subrange(0, k)), walk(pre[k]));
        lemma_walk_list_prefix(es, k + 1);
    } else {
        assert(es.subrange(0, k) =~= es);
    }
}

/// Count `dir`'s immediate and recursive contents: immediate file and
/// subdirectory counts, and over every entry below it the numbers of files
/// and directories and the summed size of the files.
pub fn directory_stats(dir: &DirEntry) -> (s: DirStats)
    requires
        count_files(walk_list(dir.children@)) <= usize::MAX,
        count_dirs(walk_list(dir.children@)) <= usize::MAX,
        file_bytes(walk_list(dir.children@)) <= u64::MAX,
    ensures
        s.files == count_files(dir.children@),
        s.dirs == count_dirs(dir.children@),
        s.total_files == count_files(walk_list(dir.children@)),
        s.total_dirs == count_dirs(walk_list(dir.children@)),
        s.total_bytes == file_bytes(walk_list(dir.children@)),
{
    root_stats(&dir.children)
}

/// Count the disk root's contents, `entries` being its top-level entries:
/// the files and subdirectories among them, and over every entry of the disk
/// the numbers of files and directories and the summed size of the files.
pub fn root_stats(entries: &Vec<DirEntry>) -> (s: DirStats)
    requires
        count_files(walk_list(entries@)) <= usize::MAX,
        count_dirs(walk_list(entries@)) <= usize::MAX,
        file_bytes(walk_list(entries@)) <= u64::MAX,
    ensures
        s.files == count_files(entries@),
        s.dirs == count_dirs(entries@),
        s.total_files == count_files(walk_list(entries@)),
        s.total_dirs == count_dirs(walk_list(entries@)),
        s.total_bytes == file_bytes(walk_list(entries@)),
{
    let mut files: usize = 0;
    let mut dirs: usize = 0;
    let mut i: usize = 0;
    let ghost kids = entries@;
    proof {
        assert(kids.take(0) =~= Seq::<DirEntry>::empty());
        lemma_immediate_le_walk(kids);
    }
    while i < entries.len()
        invariant
            kids == entries@,
            i <= kids.len(),
            files == count_files(kids.take(i as int)),
            dirs == count_dirs(kids.take(i as int)),
            count_files(kids) <= usize::MAX,
            count_dirs(kids) <= usize::MAX,
        decreases kids.len() - i,
    {
        proof {
            assert(kids.take(i + 1).drop_last() =~= kids.take(i as int));
            lemma_tallies_add(kids.take(i + 1), kids.skip(i + 1));
            assert(kids.take(i + 1) + kids.skip(i + 1) =~= kids);
        }
        if entries[i].is_dir {
            dirs = dirs + 1;
        } else {
            files = files + 1;
        }
        i = i + 1;
    }
    proof {
        assert(kids.take(i as int) =~= kids);
    }
    let mut t = Tally { files: 0, dirs: 0, bytes: 0 };
    tally_list(entries, &mut t);
    DirStats { files, dirs, total_files: t.files, total_dirs: t.dirs, total_bytes: t.bytes }
}

/// Every immediate child is also among the descendants, so the immediate
/// counts never exceed the recursive ones.
proof fn lemma_immediate_le_walk(es: Seq<DirEntry>)
    ensures
        count_files(es) <= count_files(walk_list(es)),
        count_dirs(es) <= count_dirs(walk_list(es)),
    decreases es.len(),
{
    if es.len() > 0 {
        let d = es.subrange(0, es.len() - 1);
        assert(es.drop_last() =~= d);
        lemma_immediate_le_walk(d);
        let e = es[es.len() - 1];
        lemma_tallies_add(walk_list(d), walk(e));
        lemma_tallies_add(seq![e], walk_list(e.children@));
        assert(seq![e].drop_last() =~= Seq::<DirEntry>::empty());
    }
}

/// A terminal control code: below 0x20, or DEL.
pub open spec fn is_control(b: u8) -> bool {
    b < 0x20 || b == 0x7f
}

/// The control codes below `n` that occur in `bytes`, in increasing order.
pub open spec fn controls_below(bytes: Seq<u8>, n: nat) -> Seq<u8>
    decreases n,
{
    if n == 0 {
        Seq::empty()
    } else {
        let c = (n - 1) as u8;
        let rest = controls_below(bytes, (n - 1) as nat);
        if is_control(c) && bytes.contains(c) { rest.push(c) } else { rest }
    }
}

/// `controls_below` lists, in increasing order, exactly the control codes
/// below `n` that occur in `bytes`.
proof fn lemma_controls_below(bytes: Seq<u8>, n: nat)
    requires
        n <= 256,
    ensures
        forall|i: int, j: int|
            0 <= i < j < controls_below(bytes, n).len() ==> controls_below(bytes, n)[i] < controls_below(bytes, n)[j],
        forall|i: int| 0 <= i < controls_below(bytes, n).len() ==> controls_below(bytes, n)[i] < n,
        forall|b: u8| controls_below(bytes, n).contains(b) <==> (b < n && is_control(b) && bytes.contains(b)),
    decreases n,
{
    if n > 0 {
        let m = (n - 1) as nat;
        let c = m as u8;
        lemma_controls_below(bytes, m);
        let rest = controls_below(bytes, m);
        if is_control(c) && bytes.contains(c) {
            let r = rest.push(c);
            assert forall|b: u8| r.contains(b) <==> (b < n && is_control(b) && bytes.contains(b)) by {
                if r.contains(b) && b != c {
                    let k = choose|k: int| 0 <= k < r.len() && r[k] == b;
                    assert(rest[k] == b);
                }
                if b < n && is_control(b) && bytes.contains(b) && b != c {
                    assert(rest.contains(b));
                    let k = choose|k: int| 0 <= k < rest.len() && rest[k] == b;
                    assert(r[k] == b);
                }
                if b == c {
                    assert(r[r.len() - 1] == c);
                }
            }
        }
    }
}

/// The control codes among a file name's raw bytes, each once, in
/// increasing order: the codes that manipulate an MSX terminal when the
/// directory is listed.
pub fn control_codes(name_bytes: &[u8]) -> (r: Vec<u8>)
    ensures
        r@ == controls_below(name_bytes@, 0x80),
        forall|i: int, j: int| 0 <= i < j < r@.len() ==> r@[i] < r@[j],
        forall|b: u8| r@.contains(b) <==> (is_control(b) && name_bytes@.contains(b)),
{
    let mut r: Vec<u8> = Vec::new();
    let mut code: u8 = 0;
    while code < 0x80
        invariant
            code <= 0x80,
            r@ == controls_below(name_bytes@, code as nat),
        decreases 0x80 - code,
    {
        if code < 0x20 || code == 0x7f {
            let mut found = false;
            let mut k: usize = 0;
            while k < name_bytes.len()
                invariant
                    k <= name_bytes@.len(),
                    found == (exists|j: int| 0 <= j < k && name_bytes@[j] == code),
                decreases name_bytes@.len() - k,
            {
                if name_bytes[k] == code {
                    found = true;
                }
                k = k + 1;
            }
            proof {
                if name_bytes@.contains(code) {
                    let j = choose|j: int| 0 <= j < name_bytes@.len() && name_bytes@[j] == code;
                    assert(exists|j: int| 0 <= j < k && name_bytes@[j] == code);
                }
                if found {
                    let j = choose|j: int| 0 <= j < k && name_bytes@[j] == code;
                    assert(name_bytes@.contains(code));
                }
            }
            if found {
                r.push(code);
            }
        }
        code = code + 1;
    }
    proof {
        lemma_controls_below(name_bytes@, 0x80);
        assert forall|b: u8| r@.contains(b) <==> (is_control(b) && name_bytes@.contains(b)) by {
            if is_control(b) {
                assert(b < 0x80);
            }
        }
    }
    r
}

/// Bytes as two-digit uppercase hex, separated by single spaces.
pub open spec fn spaced_hex(bytes: Seq<u8>) -> Seq<char>
    decreases bytes.len(),
{
    if bytes.len() == 0 {
        Seq::empty()
    } else if bytes.len() == 1 {
        hex_pair(bytes[0])
    } else {
        spaced_hex(bytes.drop_last()) + seq![' '] + hex_pair(bytes.last())
    }
}

/// The raw bytes of a name as `41 0C 42`.
pub fn raw_bytes_text(bytes: &[u8]) -> (r: String)
    ensures
        r@ == spaced_hex(bytes@),
{
    let mut out: Vec<char> = Vec::new();
    let mut i: usize = 0;
    while i < bytes.len()
        invariant
            i <= bytes@.len(),
            out@ == spaced_hex(bytes@.take(i as int)),
        decreases bytes@.len() - i,
    {
        if i > 0 {
            out.push(' ');
        }
        let pair = pad_left_vec(radix_digits(bytes[i] as u64, 16), 2, '0');
        append_chars(&mut out, pair.as_slice());
        proof {
            assert(bytes@.take(i + 1).drop_last() =~= bytes@.take(i as int));
            if i == 0 {
                assert(out@ =~= hex_pair(bytes@[0]));
            } else {
                assert(out@ =~= spaced_hex(bytes@.take(i as int)) + seq![' '] + hex_pair(bytes@[i as int]));
            }
        }
        i = i + 1;
    }
    proof {
        assert(bytes@.take(i as int) =~= bytes@);
    }
    string_from_chars(out.as_slice())
}

} // verus!
