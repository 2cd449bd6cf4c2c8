//! The volumes of a multi-volume image (the partitions of a hard disk, the
//! disks of a file holding several back to back, or the disk images of a
//! `.zip`): where each one lies in the image, how its tree node is named, and
//! how a tree path leads back to it.
use vstd::prelude::*;

use crate::entry::{Attributes, DirEntry};
use crate::state::VolumeKind;
use crate::text::{
    append_chars, append_str, before_any, before_any_exec, chars_of, digits_of,
    lemma_before_any_is_prefix, lemma_decimal_digits, lemma_parse_decimal_digits, parse_unsigned,
    parse_unsigned_vec, radix_digits, slice_vec, string_from_chars,
};

verus! {

/// Bytes per sector of the volumes' sector addresses.
pub const VOLUME_SECTOR_BYTES: usize = 512;

/// The letter that starts the path of a volume of `kind`.
pub open spec fn prefix_char(kind: VolumeKind) -> char {
    if kind is Partition { 'P' } else { 'D' }
}

/// The path of the `n`-th (one-based) volume's node: its letter and `n`.
pub open spec fn prefix_text(kind: VolumeKind, n: nat) -> Seq<char> {
    seq![prefix_char(kind)] + digits_of(n, 10)
}

/// The path of the `n`-th (one-based) volume's node, e.g. `P1` or `D3`.
pub fn volume_prefix(kind: VolumeKind, n: usize) -> (r: String)
    ensures
        r@ == prefix_text(kind, n as nat),
{
    let mut out: Vec<char> = Vec::new();
    out.push(kind.prefix());
    let d = radix_digits(n as u64, 10);
    append_chars(&mut out, d.as_slice());
    proof {
        assert(out@ =~= prefix_text(kind, n as nat));
    }
    string_from_chars(out.as_slice())
}

/// `Disk n`, then ` — label` when the disk has a volume label.
pub open spec fn disk_node_text(n: nat, label: Option<Seq<char>>) -> Seq<char> {
    let base = "Disk "@ + digits_of(n, 10);
    match label {
        Some(l) => base + " \u{2014} "@ + l,
        None => base,
    }
}

/// Label for one disk's synthetic top-level node inside a concatenated image,
/// e.g. `Disk 1` or `Disk 1 — GAMEDISK`.
///
/// Deliberately shorter than a partition's node name: every disk in a
/// concatenated file is the same size, the status bar lists those sizes, and
/// the tree truncates a long name at the size/date columns.
pub fn disk_node_name(n: usize, label: Option<&str>) -> (r: String)
    ensures
        r@ == disk_node_text(
            n as nat,
            match label {
                Some(l) => Some(l@),
                None => None,
            },
        ),
{
    let mut out: Vec<char> = Vec::new();
    append_str(&mut out, "Disk ");
    let d = radix_digits(n as u64, 10);
    append_chars(&mut out, d.as_slice());
    match label {
        Some(l) => {
            append_str(&mut out, " \u{2014} ");
            append_str(&mut out, l);
        },
        None => {},
    }
    proof {
        reveal_strlit("Disk ");
        reveal_strlit(" \u{2014} ");
    }
    string_from_chars(out.as_slice())
}

/// `, label` when there is a volume label, nothing otherwise.
pub open spec fn label_suffix(label: Option<Seq<char>>) -> Seq<char> {
    match label {
        Some(l) => ", "@ + l,
        None => Seq::<char>::empty(),
    }
}

/// `Partition n — FAT12, size`, then `, label` when the partition has a
/// volume label; `size` is the partition's size as already shown to the user.
pub open spec fn partition_node_text(n: nat, fat16: bool, size: Seq<char>, label: Option<Seq<char>>) -> Seq<
    char,
> {
    "Partition "@ + digits_of(n, 10) + " \u{2014} "@ + (if fat16 {
        "FAT16"@
    } else {
        "FAT12"@
    }) + ", "@ + size + label_suffix(label)
}

/// Label for a partition's top-level node, e.g.
/// `Partition 1 — FAT12, 32.00 MB, VOL_ID`, from the partition's number, FAT
/// width, size text and volume label.
pub fn partition_node_name(n: usize, fat16: bool, size: &str, label: Option<&str>) -> (r: String)
    ensures
        r@ == partition_node_text(
            n as nat,
            fat16,
            size@,
            match label {
                Some(l) => Some(l@),
                None => None,
            },
        ),
{
    let mut out: Vec<char> = Vec::new();
    append_str(&mut out, "Partition ");
    let d = radix_digits(n as u64, 10);
    append_chars(&mut out, d.as_slice());
    append_str(&mut out, " \u{2014} ");
    if fat16 {
        append_str(&mut out, "FAT16");
    } else {
        append_str(&mut out, "FAT12");
    }
    append_str(&mut out, ", ");
    append_str(&mut out, size);
    let ghost before = out@;
    match label {
        Some(l) => {
            append_str(&mut out, ", ");
            append_str(&mut out, l);
        },
        None => {},
    }
    proof {
        let lv: Option<Seq<char>> = match label {
            Some(l) => Some(l@),
            None => None,
        };
        assert(out@ =~= before + label_suffix(lv));
        assert(out@ =~= partition_node_text(n as nat, fat16, size@, lv));
    }
    string_from_chars(out.as_slice())
}

/// `member — size`, then `, label` when the disk has a volume label.
pub open spec fn archive_node_text(member: Seq<char>, size: Seq<char>, label: Option<Seq<char>>) -> Seq<char> {
    member + " \u{2014} "@ + size + label_suffix(label)
}

/// Label for one zip member's top-level node, e.g.
/// `Disc Station Disk_08b.dsk — 737.28 kB, GAMEDISK`, from the member's
/// name, its size text and the disk's volume label.
pub fn archive_node_name(member: &str, size: &str, label: Option<&str>) -> (r: String)
    ensures
        r@ == archive_node_text(
            member@,
            size@,
            match label {
                Some(l) => Some(l@),
                None => None,
            },
        ),
{
    let mut out: Vec<char> = Vec::new();
    append_str(&mut out, member);
    append_str(&mut out, " \u{2014} ");
    append_str(&mut out, size);
    let ghost before = out@;
    match label {
        Some(l) => {
            append_str(&mut out, ", ");
            append_str(&mut out, l);
        },
        None => {},
    }
    proof {
        let lv: Option<Seq<char>> = match label {
            Some(l) => Some(l@),
            None => None,
        };
        assert(out@ =~= before + label_suffix(lv));
        assert(out@ =~= archive_node_text(member@, size@, lv));
    }
    string_from_chars(out.as_slice())
}

/// The volume a tree path names and the path within that volume: the part
/// before the first `/` must be the kind's letter and a one-based volume
/// number no larger than `count`; the rest (empty when there is no `/`) is
/// the volume-relative path.
pub open spec fn resolved(path: Seq<char>, kind: VolumeKind, count: nat) -> Option<(nat, Seq<char>)> {
    let head = before_any(path, seq!['/']);
    let rest = if head.len() < path.len() {
        path.skip(head.len() + 1int)
    } else {
        Seq::<char>::empty()
    };
    if head.len() > 0 && head[0] == prefix_char(kind) {
        match parse_unsigned(head.drop_first(), 10, usize::MAX as nat) {
            Some(n) => if 1 <= n && n <= count {
                Some(((n - 1) as nat, rest))
            } else {
                None
            },
            None => None,
        }
    } else {
        None
    }
}

/// `out` is `e` with its path, and the path of every entry below it, put
/// under `prefix/`; names, sizes, flags, dates and the shape of the tree are
/// kept.
pub open spec fn reprefixed(out: DirEntry, e: DirEntry, prefix: Seq<char>) -> bool
    decreases e, 1int,
{
    &&& out.name == e.name
    &&& out.path@ == prefix + "/"@ + e.path@
    &&& out.is_dir == e.is_dir
    &&& out.size == e.size
    &&& out.attributes == e.attributes
    &&& out.modified == e.modified
    &&& reprefixed_list(out.children@, e.children@, prefix)
}

/// `out` is `es`, entry by entry, re-prefixed as [`reprefixed`] says.
pub open spec fn reprefixed_list(out: Seq<DirEntry>, es: Seq<DirEntry>, prefix: Seq<char>) -> bool
    decreases es, 0int,
{
    &&& out.len() == es.len()
    &&& forall|i: int| 0 <= i < es.len() ==> reprefixed(#[trigger] out[i], es[i], prefix)
}

/// Re-prefixes every path in `entries` (recursively) with `prefix/`, so a
/// volume's `A/B.TXT` becomes `P1/A/B.TXT` once mounted under its partition
/// node.
pub fn reprefix_tree(entries: Vec<DirEntry>, prefix: &str) -> (r: Vec<DirEntry>)
    ensures
        reprefixed_list(r@, entries@, prefix@),
    decreases entries,
{
    let ghost source = entries@;
    let n: usize = entries.len();
    assert(source.len() == n);
    let mut rest = entries;
    let mut out: Vec<DirEntry> = Vec::new();
    let mut i: usize = 0;
    while rest.len() > 0
        invariant
            i + rest@.len() == source.len(),
            source.len() <= usize::MAX,
            rest@ == source.skip(i as int),
            out@.len() == i,
            forall|k: int| 0 <= k < i ==> reprefixed(#[trigger] out@[k], source[k], prefix@),
            forall|k: int| 0 <= k < source.len() ==> decreases_to!(entries => source[k]),
        decreases rest@.len(),
    {
        let e = rest.remove(0);
        proof {
            assert(e == source[i as int]);
            assert(decreases_to!(e => e.children));
        }
        let DirEntry { name, path, is_dir, size, attributes, modified, children } = e;
        let mut p: Vec<char> = chars_of(prefix);
        p.push('/');
        let old_path = chars_of(path.as_str());
        append_chars(&mut p, old_path.as_slice());
        let new_children = reprefix_tree(children, prefix);
        out.push(DirEntry {
            name,
            path: string_from_chars(p.as_slice()),
            is_dir,
            size,
            attributes,
            modified,
            children: new_children,
        });
        proof {
            reveal_strlit("/");
            assert(out@[i as int].path@ =~= prefix@ + "/"@ + source[i as int].path@);
            assert(rest@ =~= source.skip(i + 1));
        }
        i = i + 1;
    }
    proof {
        assert(i == source.len());
    }
    out
}

/// `r` is what locating `sector` among volumes starting at `starts` gives:
/// the last volume that starts at or before it, with the sector's offset in
/// that volume, or nothing when every volume starts after it.
pub open spec fn locates(starts: Seq<usize>, sector: usize, r: Option<(usize, usize)>) -> bool {
    match r {
        Some((i, off)) => {
            &&& i < starts.len()
            &&& starts[i as int] <= sector
            &&& off == sector - starts[i as int]
            &&& forall|j: int| i < j < starts.len() ==> starts[j] > sector
        },
        None => forall|j: int| 0 <= j < starts.len() ==> starts[j] > sector,
    }
}

/// Where each volume of a multi-volume image lies: its first sector, its byte
/// length and its short label, by position. All three are empty for a
/// single-volume floppy.
#[derive(Debug, Clone, PartialEq, Eq)]
pub struct VolumeTable {
    /// What the volumes are.
    pub kind: VolumeKind,
    /// First sector (LBA) of each volume.
    pub starts: Vec<usize>,
    /// Byte size of each volume.
    pub sizes: Vec<u64>,
    /// Short label for each volume: `Partition 1`, `Disk 1`, or a zip
    /// member's own file name.
    pub labels: Vec<String>,
}

impl VolumeTable {
    /// Which volume an absolute sector falls in, as its zero-based index and
    /// the sector's offset within that volume: the last volume that starts at
    /// or before it. `None` for a single-volume floppy or a sector before the
    /// first volume.
    pub fn locate_sector(&self, sector: usize) -> (r: Option<(usize, usize)>)
        ensures
            locates(self.starts@, sector, r),
    {
        let mut i: usize = self.starts.len();
        while i > 0
            invariant
                i <= self.starts@.len(),
                forall|j: int| i <= j < self.starts@.len() ==> self.starts@[j] > sector,
            decreases i,
        {
            let start = self.starts[i - 1];
            if start <= sector {
                return Some((i - 1, sector - start));
            }
            i = i - 1;
        }
        None
    }

    /// Each volume's label paired with its first sector, for jumping between
    /// volumes. Empty for a single-volume floppy.
    pub fn volume_jumps(&self) -> (r: Vec<(String, usize)>)
        ensures
            r@.len() == (if self.labels@.len() <= self.starts@.len() {
                self.labels@.len()
            } else {
                self.starts@.len()
            }),
            forall|i: int|
                0 <= i < r@.len() ==> (#[trigger] r@[i]).0 == self.labels@[i] && r@[i].1
                    == self.starts@[i],
    {
        let mut r: Vec<(String, usize)> = Vec::new();
        let mut i: usize = 0;
        while i < self.labels.len() && i < self.starts.len()
            invariant
                i <= self.labels@.len(),
                i <= self.starts@.len(),
                r@.len() == i,
                forall|k: int|
                    0 <= k < i ==> (#[trigger] r@[k]).0 == self.labels@[k] && r@[k].1
                        == self.starts@[k],
            decreases self.labels@.len() - i,
        {
            r.push((self.labels[i].clone(), self.starts[i]));
            i = i + 1;
        }
        r
    }

    /// The byte range `start..end` that volume `n` (zero-based) occupies in an
    /// image of `image_len` bytes, for exporting one disk of a concatenated
    /// image as a file of its own; `None` when there is no such volume or the
    /// image is too short to hold it.
    pub fn volume_range(&self, n: usize, image_len: usize) -> (r: Option<(usize, usize)>)
        requires
            n < self.starts@.len() ==> self.starts@[n as int] * 512 <= usize::MAX,
            n < self.starts@.len() && n < self.sizes@.len() ==> self.starts@[n as int] * 512
                + self.sizes@[n as int] <= usize::MAX,
        ensures
            r == (if n < self.starts@.len() && n < self.sizes@.len() && self.starts@[n as int]
                * 512 + self.sizes@[n as int] <= image_len {
                Some(
                    (
                        (self.starts@[n as int] * 512) as usize,
                        (self.starts@[n as int] * 512 + self.sizes@[n as int]) as usize,
                    ),
                )
            } else {
                None
            }),
    {
        if n >= self.starts.len() {
            return None;
        }
        let start = self.starts[n] * VOLUME_SECTOR_BYTES;
        if n >= self.sizes.len() {
            return None;
        }
        let len = self.sizes[n] as usize;
        let end = start + len;
        if end <= image_len {
            Some((start, end))
        } else {
            None
        }
    }

    /// Resolves a `P{n}/rel/path` (or `D{n}/…` for disks of a concatenated
    /// file or a zip) into the zero-based volume index and the
    /// volume-relative path. `None` when the path names no volume here.
    pub fn resolve(&self, path: &str) -> (r: Option<(usize, String)>)
        ensures
            match r {
                Some((i, rest)) => resolved(path@, self.kind, self.starts@.len() as nat) == Some(
                    (i as nat, rest@),
                ),
                None => resolved(path@, self.kind, self.starts@.len() as nat) is None,
            },
    {
        let v = chars_of(path);
        let seps = vec!['/'];
        let head = before_any_exec(v.as_slice(), seps.as_slice());
        proof {
            assert(seps@ =~= seq!['/']);
            lemma_before_any_is_prefix(v@, seq!['/']);
        }
        let rest: Vec<char> = if head.len() < v.len() {
            slice_vec(v.as_slice(), head.len() + 1, v.len())
        } else {
            Vec::new()
        };
        proof {
            if head@.len() < v@.len() {
                assert(rest@ =~= v@.skip(head@.len() + 1int));
            } else {
                assert(rest@ =~= Seq::<char>::empty());
            }
        }
        if head.len() == 0 || head[0] != self.kind.prefix() {
            return None;
        }
        let digits = slice_vec(head.as_slice(), 1, head.len());
        proof {
            assert(digits@ =~= head@.drop_first());
        }
        match parse_unsigned_vec(digits.as_slice(), 10, usize::MAX as u64) {
            Some(n) => {
                if 1 <= n && n <= self.starts.len() as u64 {
                    Some(((n - 1) as usize, string_from_chars(rest.as_slice())))
                } else {
                    None
                }
            },
            None => None,
        }
    }
}

/// Volume starts that increase from one volume to the next, as they do in
/// any image whose volumes do not overlap.
pub open spec fn increasing(starts: Seq<usize>) -> bool {
    forall|i: int, j: int| 0 <= i < j < starts.len() ==> starts[i] < starts[j]
}

/// When the volumes start in increasing order, the first sector of each
/// volume is located in that volume, at offset 0.
pub proof fn lemma_volume_start_locates_itself(starts: Seq<usize>, k: int, r: Option<(usize, usize)>)
    requires
        increasing(starts),
        0 <= k < starts.len(),
        locates(starts, starts[k], r),
    ensures
        r == Some((k as usize, 0usize)),
{
    match r {
        Some((i, off)) => {
            if (i as int) < k {
                assert(starts[k] > starts[k]);
            }
            if (i as int) > k {
                assert(starts[k] < starts[i as int]);
            }
        },
        None => {
            assert(starts[k] > starts[k]);
        },
    }
}

/// A path with no `/` is its own first component.
proof fn lemma_before_slash_whole(a: Seq<char>)
    requires
        !a.contains('/'),
    ensures
        before_any(a, seq!['/']) == a,
    decreases a.len(),
{
    if a.len() > 0 {
        assert(!seq!['/'].contains(a[0])) by {
            assert(a[0] != '/') by {
                assert(a.contains(a[0]));
            }
        }
        assert(!a.drop_first().contains('/')) by {
            if a.drop_first().contains('/') {
                let k = choose|k: int| 0 <= k < a.drop_first().len() && a.drop_first()[k] == '/';
                assert(a[k + 1] == '/');
            }
        }
        lemma_before_slash_whole(a.drop_first());
        assert(seq![a[0]] + a.drop_first() =~= a);
    }
}

/// The first component of `a/t` is `a`, when `a` holds no `/`.
proof fn lemma_before_slash(a: Seq<char>, t: Seq<char>)
    requires
        !a.contains('/'),
    ensures
        before_any(a + "/"@ + t, seq!['/']) == a,
    decreases a.len(),
{
    reveal_strlit("/");
    let s = a + "/"@ + t;
    if a.len() == 0 {
        assert(s[0] == '/');
        assert(seq!['/'].contains(s[0])) by {
            assert(seq!['/'][0] == '/');
        }
    } else {
        assert(s[0] == a[0]);
        assert(!seq!['/'].contains(a[0])) by {
            assert(a[0] != '/') by {
                assert(a.contains(a[0]));
            }
        }
        assert(!a.drop_first().contains('/')) by {
            if a.drop_first().contains('/') {
                let k = choose|k: int| 0 <= k < a.drop_first().len() && a.drop_first()[k] == '/';
                assert(a[k + 1] == '/');
            }
        }
        lemma_before_slash(a.drop_first(), t);
        assert(s.drop_first() =~= a.drop_first() + "/"@ + t);
        assert(seq![a[0]] + a.drop_first() =~= a);
    }
}

/// A volume's node path holds no `/`, starts with the kind's letter and is
/// followed by its number.
proof fn lemma_prefix_text(kind: VolumeKind, n: nat, max: nat)
    requires
        n <= max,
    ensures
        !prefix_text(kind, n).contains('/'),
        prefix_text(kind, n).len() > 0,
        prefix_text(kind, n)[0] == prefix_char(kind),
        parse_unsigned(prefix_text(kind, n).drop_first(), 10, max) == Some(n),
{
    lemma_decimal_digits(n);
    lemma_parse_decimal_digits(n, max);
    let p = prefix_text(kind, n);
    let d = digits_of(n, 10);
    assert(p.drop_first() =~= d);
    if p.contains('/') {
        let k = choose|k: int| 0 <= k < p.len() && p[k] == '/';
        if k > 0 {
            assert(p[k] == d[k - 1]);
            assert('0' <= d[k - 1] <= '9');
        }
    }
}

/// Resolving the path of a file inside the `n`-th volume, as the mounted tree
/// spells it (`P2/GAMES/A.BAS`), leads back to that volume (index `n - 1`)
/// and the file's path within it; the volume's own node resolves to its
/// root.
pub proof fn lemma_resolve_finds_mounted_path(kind: VolumeKind, n: nat, count: nat, rel: Seq<char>)
    requires
        1 <= n <= count,
        n <= usize::MAX,
    ensures
        resolved(prefix_text(kind, n) + "/"@ + rel, kind, count) == Some(((n - 1) as nat, rel)),
        resolved(prefix_text(kind, n), kind, count) == Some(((n - 1) as nat, Seq::<char>::empty())),
{
    reveal_strlit("/");
    lemma_prefix_text(kind, n, usize::MAX as nat);
    let a = prefix_text(kind, n);
    let path = a + "/"@ + rel;
    lemma_before_slash(a, rel);
    assert(path.skip(a.len() + 1int) =~= rel);
    lemma_before_slash_whole(a);
}

/// Every entry of a volume's tree, once mounted under the `n`-th volume's
/// node, resolves back to that volume (index `n - 1`) and to the entry's own
/// path within it.
pub proof fn lemma_mounted_entries_resolve_back(
    kind: VolumeKind,
    n: nat,
    count: nat,
    mounted: DirEntry,
    source: DirEntry,
)
    requires
        1 <= n <= count,
        n <= usize::MAX,
        reprefixed(mounted, source, prefix_text(kind, n)),
    ensures
        resolved(mounted.path@, kind, count) == Some(((n - 1) as nat, source.path@)),
{
    lemma_resolve_finds_mounted_path(kind, n, count, source.path@);
}

/// The label of the `n`-th (one-based) volume: `Partition n`, `Disk n`, or
/// for a zip the member's own file name.
pub open spec fn volume_label_text(kind: VolumeKind, n: nat, member: Seq<char>) -> Seq<char> {
    match kind {
        VolumeKind::Partition => "Partition "@ + digits_of(n, 10),
        VolumeKind::Disk => "Disk "@ + digits_of(n, 10),
        VolumeKind::Zip => member,
    }
}

/// The label of the `n`-th (one-based) volume (see [`volume_label_text`]).
pub fn volume_label(kind: VolumeKind, n: usize, member: &str) -> (r: String)
    ensures
        r@ == volume_label_text(kind, n as nat, member@),
{
    let mut out: Vec<char> = Vec::new();
    match kind {
        VolumeKind::Partition => append_str(&mut out, "Partition "),
        VolumeKind::Disk => append_str(&mut out, "Disk "),
        VolumeKind::Zip => {
            append_str(&mut out, member);
            return string_from_chars(out.as_slice());
        },
    }
    let d = radix_digits(n as u64, 10);
    append_chars(&mut out, d.as_slice());
    string_from_chars(out.as_slice())
}

/// One readable volume of a multi-volume image, ready to be mounted: its own
/// tree, the name of its node, where it lies and its label.
#[derive(Debug)]
pub struct VolumeSource {
    pub tree: Vec<DirEntry>,
    pub node_name: String,
    pub lba_start: usize,
    pub byte_len: u64,
    pub label: String,
}

/// The tree of a multi-volume image, one node per volume, and where its
/// volumes lie.
#[derive(Debug)]
pub struct MountedVolumes {
    pub tree: Vec<DirEntry>,
    pub table: VolumeTable,
}

/// `node` is the tree node of `src` mounted as the `n`-th volume of `kind`:
/// a directory named as the source says, at the volume's path, holding the
/// volume's tree under that path.
pub open spec fn volume_node(node: DirEntry, src: VolumeSource, kind: VolumeKind, n: nat) -> bool {
    &&& node.name@ == src.node_name@
    &&& node.path@ == prefix_text(kind, n)
    &&& node.is_dir
    &&& node.size == 0
    &&& node.attributes == Attributes { read_only: false, hidden: false, system: false, archive: false }
    &&& node.modified is None
    &&& reprefixed_list(node.children@, src.tree@, prefix_text(kind, n))
}

/// `m` mounts `sources`, in order, as the volumes of an image of `kind`.
pub open spec fn mounts(m: MountedVolumes, sources: Seq<VolumeSource>, kind: VolumeKind) -> bool {
    &&& m.tree@.len() == sources.len()
    &&& m.table.kind == kind
    &&& m.table.starts@.len() == sources.len()
    &&& m.table.sizes@.len() == sources.len()
    &&& m.table.labels@.len() == sources.len()
    &&& forall|i: int|
        0 <= i < sources.len() ==> {
            &&& volume_node(#[trigger] m.tree@[i], sources[i], kind, (i + 1) as nat)
            &&& m.table.starts@[i] == sources[i].lba_start
            &&& m.table.sizes@[i] == sources[i].byte_len
            &&& m.table.labels@[i]@ == sources[i].label@
        }
}

/// Mounts the readable volumes of a partitioned hard disk, a file of several
/// floppies, or a zip of disk images: the `n`-th becomes a `P{n}` or `D{n}`
/// node holding its tree re-prefixed under that path. `None` when there is no
/// readable volume at all.
pub fn mount_volumes(kind: VolumeKind, sources: Vec<VolumeSource>) -> (r: Option<MountedVolumes>)
    ensures
        match r {
            Some(m) => sources@.len() > 0 && mounts(m, sources@, kind),
            None => sources@.len() == 0,
        },
{
    if sources.len() == 0 {
        return None;
    }
    let ghost all = sources@;
    let mut rest = sources;
    let mut tree: Vec<DirEntry> = Vec::new();
    let mut starts: Vec<usize> = Vec::new();
    let mut sizes: Vec<u64> = Vec::new();
    let mut labels: Vec<String> = Vec::new();
    let mut i: usize = 0;
    while rest.len() > 0
        invariant
            i + rest@.len() == all.len(),
            all.len() <= usize::MAX,
            rest@ == all.skip(i as int),
            tree@.len() == i,
            starts@.len() == i,
            sizes@.len() == i,
            labels@.len() == i,
            forall|k: int|
                0 <= k < i ==> {
                    &&& volume_node(#[trigger] tree@[k], all[k], kind, (k + 1) as nat)
                    &&& starts@[k] == all[k].lba_start
                    &&& sizes@[k] == all[k].byte_len
                    &&& labels@[k]@ == all[k].label@
                },
        decreases rest@.len(),
    {
        let src = rest.remove(0);
        proof {
            assert(src == all[i as int]);
            assert(rest@ =~= all.skip(i + 1));
        }
        let VolumeSource { tree: own, node_name, lba_start, byte_len, label } = src;
        let prefix = volume_prefix(kind, i + 1);
        let children = reprefix_tree(own, prefix.as_str());
        tree.push(DirEntry {
            name: node_name,
            path: prefix,
            is_dir: true,
            size: 0,
            attributes: Attributes { read_only: false, hidden: false, system: false, archive: false },
            modified: None,
            children,
        });
        starts.push(lba_start);
        sizes.push(byte_len);
        labels.push(label);
        i = i + 1;
    }
    Some(MountedVolumes { tree, table: VolumeTable { kind, starts, sizes, labels } })
}

/// Every entry of a mounted volume's tree resolves back to that volume and to
/// its path within the volume, and each volume's node resolves to the
/// volume's root.
pub proof fn lemma_mounted_volumes_resolve(
    m: MountedVolumes,
    sources: Seq<VolumeSource>,
    kind: VolumeKind,
    i: int,
    k: int,
)
    requires
        mounts(m, sources, kind),
        sources.len() <= usize::MAX,
        0 <= i < sources.len(),
        0 <= k < sources[i].tree@.len(),
    ensures
        resolved(m.tree@[i].path@, kind, m.table.starts@.len() as nat) == Some((i as nat, Seq::<char>::empty())),
        resolved(m.tree@[i].children@[k].path@, kind, m.table.starts@.len() as nat) == Some(
            (i as nat, sources[i].tree@[k].path@),
        ),
{
    let n = (i + 1) as nat;
    assert(volume_node(m.tree@[i], sources[i], kind, n));
    let node = m.tree@[i];
    assert(reprefixed(node.children@[k], sources[i].tree@[k], prefix_text(kind, n)));
    lemma_resolve_finds_mounted_path(kind, n, sources.len(), Seq::<char>::empty());
    lemma_mounted_entries_resolve_back(kind, n, sources.len(), node.children@[k], sources[i].tree@[k]);
}

} // verus!
