//! The directory tree of a mounted volume, as the file views read it.
use vstd::prelude::*;

verus! {

/// MSX-DOS file attribute flags.
#[derive(Debug, Clone, Copy, PartialEq, Eq, Default, Structural)]
pub struct Attributes {
    pub read_only: bool,
    pub hidden: bool,
    pub system: bool,
    pub archive: bool,
}

/// A FAT modification time, to the minute.
#[derive(Debug, Clone, Copy, PartialEq, Eq, Structural)]
pub struct Timestamp {
    pub year: u16,
    pub month: u8,
    pub day: u8,
    pub hour: u8,
    pub minute: u8,
}

/// One file or directory of a volume, with its subtree.
///
/// `name` is the name as the tree shows it (already decoded for display);
/// `path` is the slash-separated path from the volume root.
#[derive(Debug, PartialEq, Eq)]
pub struct DirEntry {
    pub name: String,
    pub path: String,
    pub is_dir: bool,
    pub size: u64,
    pub attributes: Attributes,
    pub modified: Option<Timestamp>,
    pub children: Vec<DirEntry>,
}

/// `e` followed by every entry below it, directories before their contents
/// (pre-order), children in order.
pub open spec fn walk(e: DirEntry) -> Seq<DirEntry>
    decreases e, 1int,
{
    seq![e] + walk_list(e.children@)
}

/// The pre-order walks of `es`, one after another.
pub open spec fn walk_list(es: Seq<DirEntry>) -> Seq<DirEntry>
    decreases es, 0int,
{
    if es.len() == 0 {
        Seq::empty()
    } else {
        walk_list(es.subrange(0, es.len() - 1)) + walk(es[es.len() - 1])
    }
}

/// How deep the deepest entry of `e` lies below `e` itself (0 for a leaf).
pub open spec fn height(e: DirEntry) -> nat
    decreases e, 1int,
{
    let h = height_list(e.children@);
    if e.children@.len() == 0 { 0 } else { h + 1 }
}

/// The largest height among `es` (0 when empty).
pub open spec fn height_list(es: Seq<DirEntry>) -> nat
    decreases es, 0int,
{
    if es.len() == 0 {
        0
    } else {
        let a = height_list(es.subrange(0, es.len() - 1));
        let b = height(es[es.len() - 1]);
        if a >= b { a } else { b }
    }
}

/// The walk of `a` then `b` is the walk of `a` followed by the walk of `b`.
pub proof fn lemma_walk_list_concat(a: Seq<DirEntry>, b: Seq<DirEntry>)
    ensures
        walk_list(a + b) == walk_list(a) + walk_list(b),
    decreases b.len(),
{
    if b.len() == 0 {
        assert(a + b =~= a);
        assert(walk_list(a) + walk_list(b) =~= walk_list(a));
    } else {
        let bi = b.subrange(0, b.len() - 1);
        lemma_walk_list_concat(a, bi);
        assert((a + b).subrange(0, (a + b).len() - 1) =~= a + bi);
        assert((a + b)[(a + b).len() - 1] == b[b.len() - 1]);
        assert(walk_list(a + b) =~= walk_list(a) + walk_list(b));
    }
}

} // verus!
