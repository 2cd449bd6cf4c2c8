//! Planning an extraction of disk files to the host: which files to write
//! and where, so that a directory comes out as a tree of its own.
use vstd::prelude::*;

use crate::entry::{lemma_walk_list_concat, walk, walk_list, DirEntry, Timestamp};
use crate::names::{after_last_sep, base_name, member_path, sanitize_member_path};
use crate::text::{chars_eq, chars_of};

verus! {

/// One file to write on the host.
#[derive(Debug, PartialEq, Eq)]
pub struct Planned {
    /// Where it goes below the destination folder, one path component per
    /// element: names as the tree shows them (the caller makes each one safe
    /// for the host's file system).
    pub parts: Vec<String>,
    /// The file's own path on the disk, to read it by.
    pub disk_path: String,
    /// Its modification time, to stamp the written file with.
    pub modified: Option<Timestamp>,
}

/// A planned file as plain values.
pub ghost struct PlanView {
    pub parts: Seq<Seq<char>>,
    pub disk_path: Seq<char>,
    pub modified: Option<Timestamp>,
}

/// The text of each string.
pub open spec fn texts_of(v: Seq<String>) -> Seq<Seq<char>> {
    v.map_values(|s: String| s@)
}

/// A planned file as plain values.
pub open spec fn plan_view(p: Planned) -> PlanView {
    PlanView { parts: texts_of(p.parts@), disk_path: p.disk_path@, modified: p.modified }
}

/// Planned files as plain values.
pub open spec fn plans_view(v: Seq<Planned>) -> Seq<PlanView> {
    v.map_values(|p: Planned| plan_view(p))
}

/// The files `e` stands for, placed under the host path `prefix`: a file
/// goes to `prefix/name`, a directory contributes every file below it, each
/// under `prefix/name/...` as the tree nests them.
pub open spec fn collected(e: DirEntry, prefix: Seq<Seq<char>>) -> Seq<PlanView>
    decreases e, 1int,
{
    let rel = prefix.push(e.name@);
    if e.is_dir {
        collected_list(e.children@, rel)
    } else {
        seq![PlanView { parts: rel, disk_path: e.path@, modified: e.modified }]
    }
}

/// The files of each of `es` under `prefix`, one after another.
pub open spec fn collected_list(es: Seq<DirEntry>, prefix: Seq<Seq<char>>) -> Seq<PlanView>
    decreases es, 0int,
{
    if es.len() == 0 {
        Seq::empty()
    } else {
        collected_list(es.subrange(0, es.len() - 1), prefix) + collected(es[es.len() - 1], prefix)
    }
}

/// The first entry of `s` whose path is `path`.
pub open spec fn entry_at(s: Seq<DirEntry>, path: Seq<char>) -> Option<DirEntry>
    decreases s.len(),
{
    if s.len() == 0 {
        None
    } else if s[0].path@ == path {
        Some(s[0])
    } else {
        entry_at(s.drop_first(), path)
    }
}

/// The files a selected `path` stands for: the entry with that path in the
/// tree `entries` (the first in tree order), collected from the destination
/// folder itself; a path the tree does not hold (a tape file) is one file
/// named by its last component.
pub open spec fn planned_for(entries: Seq<DirEntry>, path: Seq<char>) -> Seq<PlanView> {
    match entry_at(walk_list(entries), path) {
        Some(e) => collected(e, Seq::empty()),
        None => seq![PlanView { parts: seq![after_last_sep(path)], disk_path: path, modified: None }],
    }
}

/// The files each of `paths` stands for, one after another.
pub open spec fn plan_of(entries: Seq<DirEntry>, paths: Seq<Seq<char>>) -> Seq<PlanView>
    decreases paths.len(),
{
    if paths.len() == 0 {
        Seq::empty()
    } else {
        plan_of(entries, paths.drop_last()) + planned_for(entries, paths.last())
    }
}

/// Looking `path` up in `a` then `b` finds it in `a` when `a` holds it.
proof fn lemma_entry_at_concat(a: Seq<DirEntry>, b: Seq<DirEntry>, path: Seq<char>)
    ensures
        entry_at(a + b, path) == match entry_at(a, path) {
            Some(e) => Some(e),
            None => entry_at(b, path),
        },
    decreases a.len(),
{
    if a.len() > 0 {
        assert((a + b).drop_first() =~= a.drop_first() + b);
        lemma_entry_at_concat(a.drop_first(), b, path);
    } else {
        assert(a + b =~= b);
    }
}

/// The entry of the subtree of `e` whose path is `path`, first in tree order.
fn find_in_entry<'a>(e: &'a DirEntry, path: &[char]) -> (r: Option<&'a DirEntry>)
    ensures
        match r {
            Some(x) => entry_at(walk(*e), path@) == Some(*x),
            None => entry_at(walk(*e), path@) is None,
        },
    decreases e, 2int,
{
    let own = chars_of(e.path.as_str());
    proof {
        assert(walk(*e)[0] == *e);
        assert(walk(*e).drop_first() =~= walk_list(e.children@));
        assert(decreases_to!(*e => e.children));
    }
    if chars_eq(own.as_slice(), path) {
        return Some(e);
    }
    find_in_list(&e.children, path)
}

/// The entry of the walks of `es` whose path is `path`, first in tree order.
fn find_in_list<'a>(es: &'a Vec<DirEntry>, path: &[char]) -> (r: Option<&'a DirEntry>)
    ensures
        match r {
            Some(x) => entry_at(walk_list(es@), path@) == Some(*x),
            None => entry_at(walk_list(es@), path@) is None,
        },
    decreases es@, 1int,
{
    let mut i: usize = 0;
    proof {
        assert(es@.subrange(0, 0) =~= Seq::<DirEntry>::empty());
    }
    while i < es.len()
        invariant
            i <= es@.len(),
            entry_at(walk_list(es@.subrange(0, i as int)), path@) is None,
        decreases es@.len() - i,
    {
        proof {
            assert(decreases_to!(es@ => es@[i as int]));
        }
        let found = find_in_entry(&es[i], path);
        let ghost pre = es@.subrange(0, i as int);
        let ghost post = es@.subrange(i + 1, es@.len() as int);
        proof {
            let one = es@.subrange(0, i + 1);
            assert(one.subrange(0, i as int) =~= pre);
            assert(one[i as int] == es@[i as int]);
            assert(walk_list(one) == walk_list(pre) + walk(es@[i as int]));
            assert(es@ =~= one + post);
            lemma_walk_list_concat(one, post);
            lemma_entry_at_concat(walk_list(pre), walk(es@[i as int]), path@);
            lemma_entry_at_concat(walk_list(one), walk_list(post), path@);
        }
        match found {
            Some(x) => {
                return Some(x);
            },
            None => {},
        }
        i = i + 1;
    }
    proof {
        assert(es@.subrange(0, i as int) =~= es@);
    }
    None
}

/// `prefix` with `name` added at the end.
fn extended(prefix: &Vec<String>, name: &String) -> (r: Vec<String>)
    ensures
        texts_of(r@) == texts_of(prefix@).push(name@),
{
    let mut r: Vec<String> = Vec::new();
    let mut i: usize = 0;
    while i < prefix.len()
        invariant
            i <= prefix@.len(),
            r@.len() == i,
            forall|k: int| 0 <= k < i ==> (#[trigger] r@[k])@ == prefix@[k]@,
        decreases prefix@.len() - i,
    {
        r.push(prefix[i].clone());
        i = i + 1;
    }
    r.push(name.clone());
    proof {
        assert(texts_of(r@) =~= texts_of(prefix@).push(name@));
    }
    r
}

/// Appends the files `e` stands for under `prefix` to `out`.
fn collect_entry(e: &DirEntry, prefix: &Vec<String>, out: &mut Vec<Planned>)
    ensures
        plans_view(final(out)@) == plans_view(old(out)@) + collected(*e, texts_of(prefix@)),
    decreases e, 2int,
{
    let rel = extended(prefix, &e.name);
    if e.is_dir {
        proof {
            assert(decreases_to!(*e => e.children));
        }
        collect_list(&e.children, &rel, out);
    } else {
        let ghost before = out@;
        out.push(Planned { parts: rel, disk_path: e.path.clone(), modified: e.modified });
        proof {
            assert(plans_view(out@) =~= plans_view(before) + collected(*e, texts_of(prefix@)));
        }
    }
}

/// Appends the files of each of `es` under `prefix` to `out`.
fn collect_list(es: &Vec<DirEntry>, prefix: &Vec<String>, out: &mut Vec<Planned>)
    ensures
        plans_view(final(out)@) == plans_view(old(out)@) + collected_list(es@, texts_of(prefix@)),
    decreases es@, 1int,
{
    let ghost start = plans_view(out@);
    let ghost pv = texts_of(prefix@);
    let mut i: usize = 0;
    proof {
        assert(es@.subrange(0, 0) =~= Seq::<DirEntry>::empty());
        assert(start + collected_list(es@.subrange(0, 0), pv) =~= start);
    }
    while i < es.len()
        invariant
            i <= es@.len(),
            pv == texts_of(prefix@),
            plans_view(out@) == start + collected_list(es@.subrange(0, i as int), pv),
        decreases es@.len() - i,
    {
        proof {
            assert(decreases_to!(es@ => es@[i as int]));
            let one = es@.subrange(0, i + 1);
            assert(one.subrange(0, i as int) =~= es@.subrange(0, i as int));
            assert(one[i as int] == es@[i as int]);
        }
        collect_entry(&es[i], prefix, out);
        proof {
            assert(plans_view(out@) =~= start + collected_list(es@.subrange(0, i + 1), pv));
        }
        i = i + 1;
    }
    proof {
        assert(es@.subrange(0, i as int) =~= es@);
    }
}

/// Flattens the selected `paths` into the files to write on the host. A
/// directory expands into its whole subtree, each file's destination rooted
/// at the directory's own name (`UTILS/SUB/X.BIN`); a plain file maps to its
/// name alone. Paths not found in the tree `entries` (tape files) are single
/// files named by their last component.
pub fn plan_extraction(entries: &Vec<DirEntry>, paths: &[String]) -> (r: Vec<Planned>)
    ensures
        plans_view(r@) == plan_of(entries@, texts_of(paths@)),
{
    let mut out: Vec<Planned> = Vec::new();
    let ghost ps = texts_of(paths@);
    let mut i: usize = 0;
    proof {
        assert(ps.take(0) =~= Seq::<Seq<char>>::empty());
        assert(plans_view(out@) =~= Seq::<PlanView>::empty());
    }
    while i < paths.len()
        invariant
            i <= paths@.len(),
            ps == texts_of(paths@),
            plans_view(out@) == plan_of(entries@, ps.take(i as int)),
        decreases paths@.len() - i,
    {
        let ghost before = plans_view(out@);
        let p = chars_of(paths[i].as_str());
        match find_in_list(entries, p.as_slice()) {
            Some(e) => {
                let root: Vec<String> = Vec::new();
                proof {
                    assert(texts_of(root@) =~= Seq::<Seq<char>>::empty());
                }
                collect_entry(e, &root, &mut out);
            },
            None => {
                let mut parts: Vec<String> = Vec::new();
                parts.push(base_name(paths[i].as_str()));
                let ghost o = out@;
                out.push(Planned { parts, disk_path: paths[i].clone(), modified: None });
                proof {
                    assert(texts_of(parts@) =~= seq![after_last_sep(ps[i as int])]);
                    assert(plans_view(out@) =~= plans_view(o).push(plan_view(out@.last())));
                }
            },
        }
        proof {
            assert(ps.take(i + 1).drop_last() =~= ps.take(i as int));
            assert(ps.take(i + 1).last() == ps[i as int]);
            assert(plans_view(out@) =~= before + planned_for(entries@, ps[i as int]));
        }
        i = i + 1;
    }
    proof {
        assert(ps.take(i as int) =~= ps);
    }
    out
}

/// How a set of rows is extracted.
#[derive(Debug, Clone, PartialEq, Eq)]
pub enum ExtractMode {
    /// Nothing was chosen.
    Nothing,
    /// One file, through a save-as dialog so it can be renamed.
    One(String),
    /// Everything into a chosen folder, keeping each directory's tree.
    Tree,
}

/// How `paths` are extracted: a single path goes through a save-as dialog
/// unless it names a directory (`first_is_dir` says whether the first path
/// names a directory of the disk, `None` when it names no entry, such as a
/// tape file); anything else goes into a folder.
pub fn extract_mode(paths: &[String], first_is_dir: Option<bool>) -> (r: ExtractMode)
    ensures
        paths@.len() == 0 ==> r is Nothing,
        paths@.len() == 1 && first_is_dir != Some(true) ==> (r matches ExtractMode::One(p) && p@
            == paths@[0]@),
        paths@.len() == 1 && first_is_dir == Some(true) ==> r is Tree,
        paths@.len() > 1 ==> r is Tree,
{
    if paths.len() == 0 {
        ExtractMode::Nothing
    } else if paths.len() == 1 && first_is_dir != Some(true) {
        let p = chars_of(paths[0].as_str());
        ExtractMode::One(crate::text::string_from_chars(p.as_slice()))
    } else {
        ExtractMode::Tree
    }
}

/// One member of an archive as its listing shows it.
#[derive(Debug, Clone, PartialEq, Eq)]
pub struct MemberInfo {
    pub path: String,
    pub is_directory: bool,
    /// Whether its compression method can be undone.
    pub decodable: bool,
}

/// Whether "Extract all" writes `m`: a file whose compression can be undone.
pub open spec fn writable_member(m: MemberInfo) -> bool {
    !m.is_directory && m.decodable
}

/// The members "Extract all" writes, by index, each with its host path below
/// the chosen folder (see [`member_path`]).
pub open spec fn member_targets(members: Seq<MemberInfo>) -> Seq<(nat, Seq<char>)>
    decreases members.len(),
{
    if members.len() == 0 {
        Seq::empty()
    } else {
        let before = member_targets(members.drop_last());
        let m = members.last();
        if writable_member(m) {
            before.push(((members.len() - 1) as nat, member_path(m.path@)))
        } else {
            before
        }
    }
}

/// How many members "Extract all" skips (directories and members it cannot
/// decode).
pub open spec fn skipped_members(members: Seq<MemberInfo>) -> nat
    decreases members.len(),
{
    if members.len() == 0 {
        0
    } else {
        skipped_members(members.drop_last()) + if writable_member(members.last()) {
            0nat
        } else {
            1nat
        }
    }
}

/// What "Extract all" does with an archive's members: the index and host
/// path of each one it writes, and how many it skips.
pub fn archive_extraction(members: &[MemberInfo]) -> (r: (Vec<(usize, String)>, usize))
    ensures
        r.0@.len() == member_targets(members@).len(),
        forall|k: int|
            0 <= k < r.0@.len() ==> (#[trigger] r.0@[k]).0 as nat == member_targets(members@)[k].0
                && r.0@[k].1@ == member_targets(members@)[k].1,
        r.1 as nat == skipped_members(members@),
        r.0@.len() + r.1 == members@.len(),
{
    let mut out: Vec<(usize, String)> = Vec::new();
    let mut skipped: usize = 0;
    let mut i: usize = 0;
    while i < members.len()
        invariant
            i <= members@.len(),
            out@.len() == member_targets(members@.take(i as int)).len(),
            forall|k: int|
                0 <= k < out@.len() ==> (#[trigger] out@[k]).0 as nat == member_targets(
                    members@.take(i as int),
                )[k].0 && out@[k].1@ == member_targets(members@.take(i as int))[k].1,
            skipped as nat == skipped_members(members@.take(i as int)),
            out@.len() + skipped == i,
        decreases members@.len() - i,
    {
        proof {
            assert(members@.take(i + 1).drop_last() =~= members@.take(i as int));
            assert(members@.take(i + 1).last() == members@[i as int]);
        }
        let m = &members[i];
        if m.is_directory || !m.decodable {
            skipped = skipped + 1;
        } else {
            let target = sanitize_member_path(m.path.as_str());
            out.push((i, target));
        }
        i = i + 1;
    }
    proof {
        assert(members@.take(i as int) =~= members@);
    }
    (out, skipped)
}

/// Whether the archive has a member "Extract all" can write (the button is
/// disabled otherwise).
pub fn any_extractable(members: &[MemberInfo]) -> (r: bool)
    ensures
        r == exists|k: int| 0 <= k < members@.len() && writable_member(#[trigger] members@[k]),
{
    let mut i: usize = 0;
    while i < members.len()
        invariant
            i <= members@.len(),
            forall|k: int| 0 <= k < i ==> !writable_member(#[trigger] members@[k]),
        decreases members@.len() - i,
    {
        if !members[i].is_directory && members[i].decodable {
            assert(writable_member(members@[i as int]));
            return true;
        }
        i = i + 1;
    }
    false
}

} // verus!
