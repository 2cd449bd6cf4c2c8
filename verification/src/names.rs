//! File-name helpers: MSX 8.3 names, display-safe extensions, truncation,
//! and safe relative paths for extracted archive members.
use vstd::prelude::*;

use crate::paths::last_index;
use crate::text::{
    append_chars, before_any, before_any_exec, chars_of, contains_char, lemma_before_any_is_prefix, slice_vec,
    split_on, split_vec, string_from_chars, to_ascii_upper, upper, upper_all, upper_vec,
};

verus! {

/// Punctuation allowed in an MSX (FAT 8.3) filename, besides ASCII
/// alphanumerics.
pub open spec fn msx_name_punct() -> Seq<char> {
    seq!['_', '-', '!', '#', '$', '%', '&', '@', '^', '{', '}', '(', ')', '~', '\'']
}

/// `c` is an ASCII letter or digit.
pub open spec fn ascii_alnum(c: char) -> bool {
    ('0' <= c && c <= '9') || ('a' <= c && c <= 'z') || ('A' <= c && c <= 'Z')
}

/// `c` may appear in an MSX 8.3 filename (ASCII rule).
pub open spec fn msx_name_char(c: char) -> bool {
    ascii_alnum(c) || msx_name_punct().contains(c)
}

/// True if `c` is allowed in an MSX 8.3 filename (ASCII rule only).
pub fn is_msx_name_char(c: char) -> (r: bool)
    ensures
        r == msx_name_char(c),
{
    let punct = ['_', '-', '!', '#', '$', '%', '&', '@', '^', '{', '}', '(', ')', '~', '\''];
    proof {
        assert(punct@ =~= msx_name_punct());
    }
    ('0' <= c && c <= '9') || ('a' <= c && c <= 'z') || ('A' <= c && c <= 'Z') || contains_char(
        punct.as_slice(),
        c,
    )
}

/// The characters of `s` for which `keep` holds, in order.
pub open spec fn filter_chars(s: Seq<char>, keep: spec_fn(char) -> bool) -> Seq<char>
    decreases s.len(),
{
    if s.len() == 0 {
        s
    } else if keep(s.last()) {
        filter_chars(s.drop_last(), keep).push(s.last())
    } else {
        filter_chars(s.drop_last(), keep)
    }
}

/// At most the first `n` characters of `s`.
pub open spec fn at_most(s: Seq<char>, n: nat) -> Seq<char> {
    if s.len() <= n {
        s
    } else {
        s.take(n as int)
    }
}

/// `s` split at its last `.`: the text before and after it, or all of `s`
/// and nothing when it has no `.`.
pub open spec fn split_last_dot(s: Seq<char>) -> (Seq<char>, Seq<char>) {
    match last_index(s, '.') {
        Some(i) => (s.take(i), s.skip(i + 1)),
        None => (s, Seq::empty()),
    }
}

/// The 8.3 form of `name`: ASCII-uppercased, split at its last `.`, each
/// side cut down to the characters `keep` allows and capped at 8 (stem) and
/// 3 (extension) characters; an empty stem becomes `FILE` and an empty
/// extension drops the `.`.
pub open spec fn name_8_3(name: Seq<char>, keep: spec_fn(char) -> bool) -> Seq<char> {
    let (st, ex) = split_last_dot(upper_all(name));
    let stem0 = at_most(filter_chars(st, keep), 8);
    let stem = if stem0.len() == 0 { seq!['F', 'I', 'L', 'E'] } else { stem0 };
    let ext = at_most(filter_chars(ex, keep), 3);
    if ext.len() == 0 {
        stem
    } else {
        stem + seq!['.'] + ext
    }
}

/// `p` agrees with every outcome `allowed` can produce.
pub open spec fn agrees<F: Fn(char) -> bool>(allowed: F, p: spec_fn(char) -> bool) -> bool {
    forall|c: char, b: bool| allowed.ensures((c,), b) ==> b == p(c)
}

/// Keeps the characters of `v` for which `allowed` holds, at most `max`.
fn keep_allowed<F: Fn(char) -> bool>(v: &[char], allowed: &F, max: usize) -> (r: Vec<char>)
    requires
        forall|c: char| allowed.requires((c,)),
    ensures
        forall|p: spec_fn(char) -> bool| agrees(*allowed, p) ==> r@ == at_most(filter_chars(v@, p), max as nat),
{
    let mut r: Vec<char> = Vec::new();
    let mut i: usize = 0;
    proof {
        assert(v@.take(0) =~= Seq::<char>::empty());
    }
    while i < v.len()
        invariant
            i <= v.len(),
            forall|c: char| allowed.requires((c,)),
            forall|p: spec_fn(char) -> bool| agrees(*allowed, p) ==> r@ == at_most(filter_chars(v@.take(i as int), p), max as nat),
        decreases v.len() - i,
    {
        proof {
            assert(v@.take(i + 1).drop_last() =~= v@.take(i as int));
            assert(v@.take(i + 1).last() == v@[i as int]);
        }
        let c = v[i];
        let ok = allowed(c);
        let ghost r0 = r@;
        if ok && r.len() < max {
            r.push(c);
        }
        proof {
            assert forall|p: spec_fn(char) -> bool| agrees(*allowed, p) implies r@ == at_most(filter_chars(v@.take(i + 1), p), max as nat) by {
                assert(ok == p(c));
                let f0 = filter_chars(v@.take(i as int), p);
                let f1 = filter_chars(v@.take(i + 1), p);
                assert(r0 == at_most(f0, max as nat));
                if ok {
                    assert(f1 == f0.push(c));
                    if f0.len() < max {
                        assert(r@ =~= at_most(f1, max as nat));
                    } else {
                        assert(at_most(f1, max as nat) =~= at_most(f0, max as nat));
                    }
                } else {
                    assert(f1 == f0);
                }
            }
        }
        i = i + 1;
    }
    proof {
        assert(v@.take(i as int) =~= v@);
    }
    r
}

/// Coerce `name` into a valid 8.3 shape: ASCII-uppercase, keep only
/// characters for which `allowed` holds, cap the stem at 8 and extension at 3
/// characters (counted as characters, since one MSX byte is one glyph). An
/// empty stem becomes `FILE`.
pub fn sanitize_8_3<F: Fn(char) -> bool>(name: &str, allowed: F) -> (r: String)
    requires
        forall|c: char| allowed.requires((c,)),
    ensures
        forall|p: spec_fn(char) -> bool| agrees(allowed, p) ==> r@ == name_8_3(name@, p),
{
    let v = chars_of(name);
    let mut up: Vec<char> = Vec::new();
    let mut i: usize = 0;
    while i < v.len()
        invariant
            i <= v.len(),
            up@ == upper_all(v@.take(i as int)),
        decreases v.len() - i,
    {
        up.push(to_ascii_upper(v[i]));
        i = i + 1;
        proof {
            assert(up@ =~= upper_all(v@.take(i as int)));
        }
    }
    proof {
        assert(v@.take(i as int) =~= v@);
    }
    let ghost u = up@;
    let mut k: usize = up.len();
    proof {
        assert(u.take(u.len() as int) =~= u);
    }
    while k > 0 && up[k - 1] != '.'
        invariant
            k <= up.len(),
            u == up@,
            last_index(u, '.') == last_index(u.take(k as int), '.'),
        decreases k,
    {
        proof {
            assert(u.take(k as int).drop_last() =~= u.take(k - 1));
        }
        k = k - 1;
    }
    let mut stem_src: Vec<char> = Vec::new();
    let mut ext_src: Vec<char> = Vec::new();
    if k == 0 {
        proof {
            assert(u.take(0) =~= Seq::<char>::empty());
        }
        stem_src = up;
    } else {
        proof {
            assert(u.take(k as int).last() == '.');
        }
        let mut j: usize = 0;
        while j < k - 1
            invariant
                j <= k - 1,
                k <= up.len(),
                stem_src@ == up@.take(j as int),
            decreases k - 1 - j,
        {
            stem_src.push(up[j]);
            j = j + 1;
            proof {
                assert(stem_src@ =~= up@.take(j as int));
            }
        }
        let mut m: usize = k;
        while m < up.len()
            invariant
                k <= m <= up.len(),
                ext_src@ == up@.subrange(k as int, m as int),
            decreases up.len() - m,
        {
            ext_src.push(up[m]);
            m = m + 1;
            proof {
                assert(ext_src@ =~= up@.subrange(k as int, m as int));
            }
        }
        proof {
            assert(ext_src@ =~= u.skip(k as int));
        }
    }
    let stem0 = keep_allowed(stem_src.as_slice(), &allowed, 8);
    let ext = keep_allowed(ext_src.as_slice(), &allowed, 3);
    let mut out: Vec<char> = Vec::new();
    if stem0.len() == 0 {
        out.push('F');
        out.push('I');
        out.push('L');
        out.push('E');
    } else {
        append_chars(&mut out, stem0.as_slice());
    }
    if ext.len() > 0 {
        out.push('.');
        append_chars(&mut out, ext.as_slice());
    }
    proof {
        assert forall|p: spec_fn(char) -> bool| agrees(allowed, p) implies out@ == name_8_3(name@, p) by {
            assert(out@ =~= name_8_3(name@, p));
        }
    }
    string_from_chars(out.as_slice())
}

/// Whether `c` may stand in a name being typed: not the `.` separator, and
/// an MSX filename character when ASCII, else a character `encodable` says
/// the disk's character set can store.
pub open spec fn renamable(encodable: spec_fn(char) -> bool) -> spec_fn(char) -> bool {
    |c: char| c != '.' && (if (c as u32) < 0x80 { msx_name_char(c) } else { encodable(c) })
}

/// Free-form rename input restricted to an 8.3 shape as it is typed:
/// ASCII-uppercased; the stem is what comes before the first `.`, the
/// extension what follows it (later dots dropped); each keeps only the
/// [`renamable`] characters, capped at 8 and 3; the `.` stays whenever the
/// input has one, and an empty stem stays empty.
pub open spec fn msx_input(raw: Seq<char>, encodable: spec_fn(char) -> bool) -> Seq<char> {
    let u = upper_all(raw);
    let head = before_any(u, seq!['.']);
    let stem = at_most(filter_chars(head, renamable(encodable)), 8);
    if head.len() < u.len() {
        stem + seq!['.'] + at_most(filter_chars(u.skip(head.len() + 1int), renamable(encodable)), 3)
    } else {
        stem
    }
}

/// Keeps the characters of `v` that may stand in a typed name, at most `max`.
fn keep_renamable<F: Fn(char) -> bool>(v: &[char], encodable: &F, max: usize) -> (r: Vec<char>)
    requires
        forall|c: char| encodable.requires((c,)),
    ensures
        forall|p: spec_fn(char) -> bool| agrees(*encodable, p) ==> r@ == at_most(
            filter_chars(v@, renamable(p)),
            max as nat,
        ),
{
    let mut r: Vec<char> = Vec::new();
    let mut i: usize = 0;
    proof {
        assert(v@.take(0) =~= Seq::<char>::empty());
    }
    while i < v.len()
        invariant
            i <= v.len(),
            forall|c: char| encodable.requires((c,)),
            forall|p: spec_fn(char) -> bool| agrees(*encodable, p) ==> r@ == at_most(
                filter_chars(v@.take(i as int), renamable(p)),
                max as nat,
            ),
        decreases v.len() - i,
    {
        proof {
            assert(v@.take(i + 1).drop_last() =~= v@.take(i as int));
            assert(v@.take(i + 1).last() == v@[i as int]);
        }
        let c = v[i];
        let ok = if c == '.' {
            false
        } else if (c as u32) < 0x80 {
            is_msx_name_char(c)
        } else {
            encodable(c)
        };
        let ghost r0 = r@;
        if ok && r.len() < max {
            r.push(c);
        }
        proof {
            assert forall|p: spec_fn(char) -> bool| agrees(*encodable, p) implies r@ == at_most(
                filter_chars(v@.take(i + 1), renamable(p)),
                max as nat,
            ) by {
                assert(ok == renamable(p)(c));
                let f0 = filter_chars(v@.take(i as int), renamable(p));
                let f1 = filter_chars(v@.take(i + 1), renamable(p));
                assert(r0 == at_most(f0, max as nat));
                if ok {
                    assert(f1 == f0.push(c));
                    if f0.len() < max {
                        assert(r@ =~= at_most(f1, max as nat));
                    } else {
                        assert(at_most(f1, max as nat) =~= at_most(f0, max as nat));
                    }
                } else {
                    assert(f1 == f0);
                }
            }
        }
        i = i + 1;
    }
    proof {
        assert(v@.take(i as int) =~= v@);
    }
    r
}

/// Restricts free-form rename input to a valid 8.3 shape *as it is typed*:
/// ASCII-uppercase, only characters allowed under the disk's character set,
/// at most one `.` separator, an 8-char stem and a 3-char extension. Unlike
/// [`sanitize_8_3`] it leaves an empty stem empty (so the field can be
/// cleared) and keeps a trailing `.` so the extension can still be typed.
/// `encodable` says whether the character set can store a non-ASCII
/// character.
pub fn normalize_msx_input<F: Fn(char) -> bool>(raw: &str, encodable: F) -> (r: String)
    requires
        forall|c: char| encodable.requires((c,)),
    ensures
        forall|p: spec_fn(char) -> bool| agrees(encodable, p) ==> r@ == msx_input(raw@, p),
{
    let u = upper_vec(chars_of(raw).as_slice());
    let dots = vec!['.'];
    let head = before_any_exec(u.as_slice(), dots.as_slice());
    proof {
        assert(dots@ =~= seq!['.']);
        lemma_before_any_is_prefix(u@, seq!['.']);
    }
    let mut out = keep_renamable(head.as_slice(), &encodable, 8);
    if head.len() < u.len() {
        let tail = slice_vec(u.as_slice(), head.len() + 1, u.len());
        let ext = keep_renamable(tail.as_slice(), &encodable, 3);
        out.push('.');
        append_chars(&mut out, ext.as_slice());
        proof {
            assert(tail@ =~= u@.skip(head@.len() + 1int));
            assert forall|p: spec_fn(char) -> bool| agrees(encodable, p) implies out@ == msx_input(raw@, p) by {
                assert(out@ =~= at_most(filter_chars(head@, renamable(p)), 8) + seq!['.'] + at_most(
                    filter_chars(u@.skip(head@.len() + 1int), renamable(p)),
                    3,
                ));
            }
        }
    }
    string_from_chars(out.as_slice())
}

/// Every character `filter_chars` keeps satisfies the predicate.
proof fn lemma_filter_keeps(s: Seq<char>, keep: spec_fn(char) -> bool)
    ensures
        forall|k: int| 0 <= k < filter_chars(s, keep).len() ==> keep(#[trigger] filter_chars(s, keep)[k]),
    decreases s.len(),
{
    if s.len() > 0 {
        lemma_filter_keeps(s.drop_last(), keep);
        let f = filter_chars(s.drop_last(), keep);
        if keep(s.last()) {
            assert forall|k: int| 0 <= k < f.push(s.last()).len() implies keep(#[trigger] f.push(s.last())[k]) by {
                if k < f.len() {
                    assert(f.push(s.last())[k] == f[k]);
                }
            }
        }
    }
}

/// `stem`, then a `.` and `ext` when `ext` is not empty.
pub open spec fn dotted(stem: Seq<char>, ext: Seq<char>) -> Seq<char> {
    if ext.len() == 0 { stem } else { stem + seq!['.'] + ext }
}

/// A name in 8.3 shape: a stem of one to eight characters and, when the
/// extension is not empty, a `.` and an extension of at most three; every
/// character is one `keep` allows, but for a stem that is exactly `FILE`.
pub open spec fn is_8_3(r: Seq<char>, keep: spec_fn(char) -> bool) -> bool {
    exists|stem: Seq<char>, ext: Seq<char>|
        {
            &&& r == #[trigger] dotted(stem, ext)
            &&& 1 <= stem.len() <= 8
            &&& ext.len() <= 3
            &&& (stem == seq!['F', 'I', 'L', 'E'] || forall|k: int| 0 <= k < stem.len() ==> keep(#[trigger] stem[k]))
            &&& forall|k: int| 0 <= k < ext.len() ==> keep(#[trigger] ext[k])
        }
}

/// Whatever the input, sanitizing yields a name in 8.3 shape.
pub proof fn lemma_sanitized_is_8_3(name: Seq<char>, keep: spec_fn(char) -> bool)
    ensures
        is_8_3(name_8_3(name, keep), keep),
{
    let (st, ex) = split_last_dot(upper_all(name));
    let f0 = filter_chars(st, keep);
    let f1 = filter_chars(ex, keep);
    lemma_filter_keeps(st, keep);
    lemma_filter_keeps(ex, keep);
    let stem0 = at_most(f0, 8);
    let stem = if stem0.len() == 0 { seq!['F', 'I', 'L', 'E'] } else { stem0 };
    let ext = at_most(f1, 3);
    assert forall|k: int| 0 <= k < stem0.len() implies keep(#[trigger] stem0[k]) by {
        assert(stem0[k] == f0[k]);
    }
    assert forall|k: int| 0 <= k < ext.len() implies keep(#[trigger] ext[k]) by {
        assert(ext[k] == f1[k]);
    }
    assert(name_8_3(name, keep) == dotted(stem, ext));
}

/// `c` is no ASCII lowercase letter (ASCII uppercasing leaves it as it is).
pub open spec fn not_lowercase(c: char) -> bool {
    !('a' <= c && c <= 'z')
}

proof fn lemma_upper_not_lowercase(c: char)
    ensures
        not_lowercase(upper(c)),
        not_lowercase(c) ==> upper(c) == c,
{
    if 'a' <= c && c <= 'z' {
        assert(('A' <= upper(c) && upper(c) <= 'Z'));
    }
}

/// Filtering keeps only characters of its input: whatever holds of every
/// input character holds of every output character.
proof fn lemma_filter_inherits(s: Seq<char>, keep: spec_fn(char) -> bool, q: spec_fn(char) -> bool)
    requires
        forall|k: int| 0 <= k < s.len() ==> q(#[trigger] s[k]),
    ensures
        forall|k: int| 0 <= k < filter_chars(s, keep).len() ==> q(#[trigger] filter_chars(s, keep)[k]),
    decreases s.len(),
{
    if s.len() > 0 {
        let d = s.drop_last();
        assert forall|k: int| 0 <= k < d.len() implies q(#[trigger] d[k]) by {
            assert(d[k] == s[k]);
        }
        lemma_filter_inherits(d, keep, q);
        let f = filter_chars(d, keep);
        if keep(s.last()) {
            assert forall|k: int| 0 <= k < f.push(s.last()).len() implies q(#[trigger] f.push(s.last())[k]) by {
                if k < f.len() {
                    assert(f.push(s.last())[k] == f[k]);
                } else {
                    assert(q(s[s.len() - 1]));
                }
            }
        }
    }
}

/// Filtering a text whose characters are all kept gives it back.
proof fn lemma_filter_keeps_all(s: Seq<char>, keep: spec_fn(char) -> bool)
    requires
        forall|k: int| 0 <= k < s.len() ==> keep(#[trigger] s[k]),
    ensures
        filter_chars(s, keep) == s,
    decreases s.len(),
{
    if s.len() > 0 {
        let d = s.drop_last();
        assert forall|k: int| 0 <= k < d.len() implies keep(#[trigger] d[k]) by {
            assert(d[k] == s[k]);
        }
        lemma_filter_keeps_all(d, keep);
        assert(keep(s[s.len() - 1]));
        assert(d.push(s.last()) =~= s);
    }
}

/// A text with no character `c` has no last `c`.
proof fn lemma_no_last_index(s: Seq<char>, c: char)
    requires
        forall|k: int| 0 <= k < s.len() ==> #[trigger] s[k] != c,
    ensures
        last_index(s, c) is None,
    decreases s.len(),
{
    if s.len() > 0 {
        let d = s.drop_last();
        assert forall|k: int| 0 <= k < d.len() implies #[trigger] d[k] != c by {
            assert(d[k] == s[k]);
        }
        lemma_no_last_index(d, c);
    }
}

/// The last `c` of `a`, `c`, `b` is the one after `a` when `b` has none.
proof fn lemma_last_index_after(a: Seq<char>, c: char, b: Seq<char>)
    requires
        forall|k: int| 0 <= k < b.len() ==> #[trigger] b[k] != c,
    ensures
        last_index(a + seq![c] + b, c) == Some(a.len() as int),
    decreases b.len(),
{
    if b.len() > 0 {
        let d = b.drop_last();
        assert forall|k: int| 0 <= k < d.len() implies #[trigger] d[k] != c by {
            assert(d[k] == b[k]);
        }
        lemma_last_index_after(a, c, d);
        assert((a + seq![c] + b).drop_last() =~= a + seq![c] + d);
        assert((a + seq![c] + b).last() == b[b.len() - 1]);
    } else {
        assert(a + seq![c] + b =~= a.push(c));
    }
}

/// ASCII uppercasing a text made of characters it leaves alone gives it back.
proof fn lemma_upper_all_fixed(s: Seq<char>)
    requires
        forall|k: int| 0 <= k < s.len() ==> not_lowercase(#[trigger] s[k]),
    ensures
        upper_all(s) == s,
{
    assert forall|k: int| 0 <= k < s.len() implies #[trigger] upper_all(s)[k] == s[k] by {
        lemma_upper_not_lowercase(s[k]);
    }
    assert(upper_all(s) =~= s);
}

/// What sanitizing puts together: a stem and an extension whose characters
/// are uppercase-stable, never a `.` when `keep` refuses it, and allowed by
/// `keep` (the stem `FILE` aside).
proof fn lemma_sanitized_parts(name: Seq<char>, keep: spec_fn(char) -> bool)
    ensures
        ({
            let (st, ex) = split_last_dot(upper_all(name));
            let stem0 = at_most(filter_chars(st, keep), 8);
            let ext = at_most(filter_chars(ex, keep), 3);
            &&& forall|k: int| 0 <= k < stem0.len() ==> not_lowercase(#[trigger] stem0[k]) && keep(stem0[k])
            &&& forall|k: int| 0 <= k < ext.len() ==> not_lowercase(#[trigger] ext[k]) && keep(ext[k])
            &&& ext.len() <= 3
            &&& stem0.len() <= 8
        }),
{
    let u = upper_all(name);
    assert forall|k: int| 0 <= k < u.len() implies not_lowercase(#[trigger] u[k]) by {
        lemma_upper_not_lowercase(name[k]);
    }
    let (st, ex) = split_last_dot(u);
    let q = |c: char| not_lowercase(c);
    match last_index(u, '.') {
        Some(i) => {
            crate::paths::lemma_last_index(u, '.');
            assert forall|k: int| 0 <= k < st.len() implies q(#[trigger] st[k]) by {
                assert(st[k] == u[k]);
            }
            assert forall|k: int| 0 <= k < ex.len() implies q(#[trigger] ex[k]) by {
                assert(ex[k] == u[k + i + 1]);
            }
        },
        None => {
            assert forall|k: int| 0 <= k < st.len() implies q(#[trigger] st[k]) by {}
        },
    }
    lemma_filter_inherits(st, keep, q);
    lemma_filter_inherits(ex, keep, q);
    lemma_filter_keeps(st, keep);
    lemma_filter_keeps(ex, keep);
    let f0 = filter_chars(st, keep);
    let f1 = filter_chars(ex, keep);
    let stem0 = at_most(f0, 8);
    let ext = at_most(f1, 3);
    assert forall|k: int| 0 <= k < stem0.len() implies not_lowercase(#[trigger] stem0[k]) && keep(stem0[k]) by {
        assert(stem0[k] == f0[k]);
        assert(q(f0[k]));
    }
    assert forall|k: int| 0 <= k < ext.len() implies not_lowercase(#[trigger] ext[k]) && keep(ext[k]) by {
        assert(ext[k] == f1[k]);
        assert(q(f1[k]));
    }
}

/// A sanitized name has no ASCII lowercase letter.
pub proof fn lemma_sanitized_is_uppercase(name: Seq<char>, keep: spec_fn(char) -> bool)
    ensures
        forall|k: int| 0 <= k < name_8_3(name, keep).len() ==> not_lowercase(#[trigger] name_8_3(name, keep)[k]),
{
    lemma_sanitized_parts(name, keep);
    let (st, ex) = split_last_dot(upper_all(name));
    let stem0 = at_most(filter_chars(st, keep), 8);
    let stem = if stem0.len() == 0 { seq!['F', 'I', 'L', 'E'] } else { stem0 };
    let ext = at_most(filter_chars(ex, keep), 3);
    let r = name_8_3(name, keep);
    assert(r == dotted(stem, ext));
    assert forall|k: int| 0 <= k < r.len() implies not_lowercase(#[trigger] r[k]) by {
        if k < stem.len() {
            assert(r[k] == stem[k]);
        } else if k == stem.len() {
            assert(r[k] == '.');
        } else {
            assert(r[k] == ext[k - stem.len() - 1]);
        }
    }
}

/// Sanitizing a sanitized name changes nothing, for a character rule that
/// refuses `.` and allows the letters of the stand-in stem `FILE`.
pub proof fn lemma_sanitize_idempotent(name: Seq<char>, keep: spec_fn(char) -> bool)
    requires
        !keep('.'),
        keep('F'),
        keep('I'),
        keep('L'),
        keep('E'),
    ensures
        name_8_3(name_8_3(name, keep), keep) == name_8_3(name, keep),
{
    lemma_sanitized_parts(name, keep);
    let (st, ex) = split_last_dot(upper_all(name));
    let stem0 = at_most(filter_chars(st, keep), 8);
    let file = seq!['F', 'I', 'L', 'E'];
    let stem = if stem0.len() == 0 { file } else { stem0 };
    let ext = at_most(filter_chars(ex, keep), 3);
    let r = name_8_3(name, keep);
    assert(r == dotted(stem, ext));
    assert forall|k: int| 0 <= k < stem.len() implies not_lowercase(#[trigger] stem[k]) && keep(stem[k])
        && stem[k] != '.' by {
        if stem0.len() == 0 {
            assert(stem[k] == file[k]);
        }
    }
    assert forall|k: int| 0 <= k < ext.len() implies #[trigger] ext[k] != '.' by {
        assert(keep(ext[k]));
    }
    lemma_filter_keeps_all(stem, keep);
    lemma_filter_keeps_all(ext, keep);
    assert forall|k: int| 0 <= k < r.len() implies not_lowercase(#[trigger] r[k]) by {
        if k < stem.len() {
            assert(r[k] == stem[k]);
        } else if k == stem.len() {
            assert(r[k] == '.');
        } else {
            assert(r[k] == ext[k - stem.len() - 1]);
        }
    }
    lemma_upper_all_fixed(r);
    if ext.len() == 0 {
        assert forall|k: int| 0 <= k < r.len() implies #[trigger] r[k] != '.' by {
            assert(r[k] == stem[k]);
        }
        lemma_no_last_index(r, '.');
        assert(split_last_dot(r) == (r, Seq::<char>::empty()));
        assert(filter_chars(Seq::<char>::empty(), keep) =~= Seq::<char>::empty());
    } else {
        lemma_last_index_after(stem, '.', ext);
        assert(r.take(stem.len() as int) =~= stem);
        assert(r.skip(stem.len() + 1int) =~= ext);
    }
}

/// The text before the first `.` of `s` ends where `s` holds a `.`, or is all
/// of `s` when it holds none.
proof fn lemma_before_dot(s: Seq<char>)
    ensures
        before_any(s, seq!['.']).len() <= s.len(),
        before_any(s, seq!['.']) == s.take(before_any(s, seq!['.']).len() as int),
        before_any(s, seq!['.']).len() < s.len() ==> s[before_any(s, seq!['.']).len() as int] == '.',
        forall|k: int| 0 <= k < before_any(s, seq!['.']).len() ==> #[trigger] s[k] != '.',
    decreases s.len(),
{
    lemma_before_any_is_prefix(s, seq!['.']);
    if s.len() > 0 {
        if seq!['.'].contains(s[0]) {
            assert(seq!['.'][0] == '.');
        } else {
            assert(s[0] != '.') by {
                if s[0] == '.' {
                    assert(seq!['.'][0] == s[0]);
                }
            }
            lemma_before_dot(s.drop_first());
            let t = before_any(s.drop_first(), seq!['.']);
            assert forall|k: int| 0 <= k < t.len() + 1 implies #[trigger] s[k] != '.' by {
                if k > 0 {
                    assert(s[k] == s.drop_first()[k - 1]);
                }
            }
        }
    } else {
        assert(s.take(0) =~= s);
    }
}

/// The text before the first `.` of `a`, `.`, `b` is `a` when `a` has no `.`;
/// and all of `a` when there is no `.` after it.
proof fn lemma_before_dot_of(a: Seq<char>, b: Seq<char>)
    requires
        forall|k: int| 0 <= k < a.len() ==> #[trigger] a[k] != '.',
    ensures
        before_any(a + seq!['.'] + b, seq!['.']) == a,
        before_any(a, seq!['.']) == a,
    decreases a.len(),
{
    if a.len() == 0 {
        assert((a + seq!['.'] + b)[0] == '.');
        assert(seq!['.'].contains('.')) by {
            assert(seq!['.'][0] == '.');
        }
    } else {
        let d = a.drop_first();
        assert forall|k: int| 0 <= k < d.len() implies #[trigger] d[k] != '.' by {
            assert(d[k] == a[k + 1]);
        }
        lemma_before_dot_of(d, b);
        assert(!seq!['.'].contains(a[0])) by {
            if seq!['.'].contains(a[0]) {
                let j = choose|j: int| 0 <= j < 1 && seq!['.'][j] == a[0];
                assert(a[0] != '.');
            }
        }
        assert((a + seq!['.'] + b).drop_first() =~= d + seq!['.'] + b);
        assert((a + seq!['.'] + b)[0] == a[0]);
        assert(seq![a[0]] + d =~= a);
    }
}

/// Whether `s` holds a `.`.
pub open spec fn has_dot(s: Seq<char>) -> bool {
    exists|k: int| 0 <= k < s.len() && s[k] == '.'
}

/// Typed input restricted to an 8.3 shape holds no ASCII lowercase letter; a
/// stem of at most eight characters, then, exactly when the typed text had a
/// `.`, one `.` and an extension of at most three; and every other
/// character is one a typed name may hold. Restricting it again changes
/// nothing.
pub proof fn lemma_msx_input_shape(raw: Seq<char>, encodable: spec_fn(char) -> bool)
    ensures
        ({
            let o = msx_input(raw, encodable);
            let stem = before_any(o, seq!['.']);
            &&& forall|k: int| 0 <= k < o.len() ==> not_lowercase(#[trigger] o[k])
            &&& forall|k: int| 0 <= k < o.len() && o[k] != '.' ==> renamable(encodable)(#[trigger] o[k])
            &&& stem.len() <= 8
            &&& (has_dot(o) <==> has_dot(raw))
            &&& (has_dot(o) ==> stem.len() < o.len() && o.len() - stem.len() - 1 <= 3 && !has_dot(
                o.skip(stem.len() + 1int),
            ))
            &&& msx_input(o, encodable) == o
        }),
{
    let keep = renamable(encodable);
    let u = upper_all(raw);
    let head = before_any(u, seq!['.']);
    lemma_before_dot(u);
    assert forall|k: int| 0 <= k < u.len() implies not_lowercase(#[trigger] u[k]) by {
        lemma_upper_not_lowercase(raw[k]);
    }
    assert(has_dot(u) <==> has_dot(raw)) by {
        if has_dot(raw) {
            let k = choose|k: int| 0 <= k < raw.len() && raw[k] == '.';
            assert(u[k] == '.');
        }
        if has_dot(u) {
            let k = choose|k: int| 0 <= k < u.len() && u[k] == '.';
            assert(u[k] == upper(raw[k]));
            assert(raw[k] == '.');
        }
    }
    assert(head.len() < u.len() <==> has_dot(u)) by {
        if has_dot(u) && head.len() == u.len() {
            let k = choose|k: int| 0 <= k < u.len() && u[k] == '.';
            assert(head[k] == u[k]);
        }
    }
    let q = |c: char| not_lowercase(c);
    assert forall|k: int| 0 <= k < head.len() implies q(#[trigger] head[k]) by {
        assert(head[k] == u[k]);
    }
    lemma_filter_inherits(head, keep, q);
    lemma_filter_keeps(head, keep);
    let fs = filter_chars(head, keep);
    let stem = at_most(fs, 8);
    assert forall|k: int| 0 <= k < stem.len() implies not_lowercase(#[trigger] stem[k]) && keep(stem[k])
        && stem[k] != '.' by {
        assert(stem[k] == fs[k]);
        assert(q(fs[k]));
    }
    lemma_filter_keeps_all(stem, keep);
    let o = msx_input(raw, encodable);
    if head.len() < u.len() {
        let tail = u.skip(head.len() + 1int);
        assert forall|k: int| 0 <= k < tail.len() implies q(#[trigger] tail[k]) by {
            assert(tail[k] == u[k + head.len() + 1]);
        }
        lemma_filter_inherits(tail, keep, q);
        lemma_filter_keeps(tail, keep);
        let ft = filter_chars(tail, keep);
        let ext = at_most(ft, 3);
        assert forall|k: int| 0 <= k < ext.len() implies not_lowercase(#[trigger] ext[k]) && keep(ext[k])
            && ext[k] != '.' by {
            assert(ext[k] == ft[k]);
            assert(q(ft[k]));
        }
        lemma_filter_keeps_all(ext, keep);
        assert(o == stem + seq!['.'] + ext);
        lemma_before_dot_of(stem, ext);
        assert(o[stem.len() as int] == '.');
        assert forall|k: int| 0 <= k < o.len() implies not_lowercase(#[trigger] o[k]) && (o[k] != '.' ==> keep(
            o[k],
        )) by {
            if k < stem.len() {
                assert(o[k] == stem[k]);
            } else if k > stem.len() {
                assert(o[k] == ext[k - stem.len() - 1]);
            }
        }
        assert(o.skip(stem.len() + 1int) =~= ext);
        assert(!has_dot(ext)) by {
            if has_dot(ext) {
                let k = choose|k: int| 0 <= k < ext.len() && ext[k] == '.';
            }
        }
        lemma_upper_all_fixed(o);
        assert(o.take(stem.len() as int) =~= stem);
    } else {
        assert(o == stem);
        lemma_before_dot_of(stem, Seq::<char>::empty());
        assert(!has_dot(o)) by {
            if has_dot(o) {
                let k = choose|k: int| 0 <= k < o.len() && o[k] == '.';
            }
        }
        lemma_upper_all_fixed(o);
    }
}

/// Coerce a dropped host filename into a valid ASCII 8.3 MSX name.
pub fn sanitize_msx_name(name: &str) -> (r: String)
    ensures
        r@ == name_8_3(name@, |c: char| msx_name_char(c)),
{
    let r = sanitize_8_3(name, is_msx_name_char);
    proof {
        assert(agrees(is_msx_name_char, |c: char| msx_name_char(c)));
    }
    r
}

} // verus!

verus! {

/// The stem (pre-extension) part of a normalized 8.3 name: everything before
/// its first `.`. Empty means the name has no usable base and cannot be
/// applied.
pub fn msx_name_stem(name: &str) -> (r: &str)
    ensures
        r@ == crate::text::before_any(name@, seq!['.']),
{
    let v = chars_of(name);
    let mut dot: Vec<char> = Vec::new();
    dot.push('.');
    proof {
        assert(dot@ =~= seq!['.']);
    }
    let head = crate::text::before_any_exec(v.as_slice(), dot.as_slice());
    proof {
        lemma_before_any_is_prefix(v@, seq!['.']);
    }
    name.substring_char(0, head.len())
}

/// The placeholder for an extension character that cannot be shown in a
/// column-aligned monospace table.
pub const EXT_PLACEHOLDER: char = '?';

/// `c` is printable ASCII other than space (`is_ascii_graphic`).
pub open spec fn ascii_graphic(c: char) -> bool {
    '!' <= c && c <= '~'
}

/// A file extension made safe for a monospace, column-aligned table: each
/// character that is not printable ASCII becomes `?`, one for one.
pub open spec fn safe_ext(ext: Seq<char>) -> Seq<char> {
    ext.map_values(|c: char| if ascii_graphic(c) { c } else { EXT_PLACEHOLDER })
}

/// A file extension made safe for a monospace, column-aligned table. Real
/// MSX extensions are ASCII, but "strange" filenames can carry control bytes
/// or undecoded high bytes whose glyphs render at an unpredictable width.
/// Each such character is swapped one-for-one for [`EXT_PLACEHOLDER`], so
/// the visible width matches the character count.
pub fn display_ext(ext: &str) -> (r: String)
    ensures
        r@ == safe_ext(ext@),
{
    let v = chars_of(ext);
    let mut out: Vec<char> = Vec::new();
    let mut i: usize = 0;
    while i < v.len()
        invariant
            i <= v.len(),
            out@ == safe_ext(v@.take(i as int)),
        decreases v.len() - i,
    {
        let c = v[i];
        out.push(if '!' <= c && c <= '~' { c } else { EXT_PLACEHOLDER });
        i = i + 1;
        proof {
            assert(out@ =~= safe_ext(v@.take(i as int)));
        }
    }
    proof {
        assert(v@.take(i as int) =~= v@);
    }
    string_from_chars(out.as_slice())
}

/// `s` when it has at most `max` characters, else its first `max - 1`
/// characters (none when `max` is 0) followed by an ellipsis.
pub open spec fn truncated(s: Seq<char>, max: nat) -> Seq<char> {
    if s.len() <= max {
        s
    } else {
        s.take(if max >= 1 { max - 1 } else { 0 }) + seq!['\u{2026}']
    }
}

/// Truncate `s` to at most `max` characters, marking elision with a
/// trailing ellipsis so a monospace table stays aligned.
pub fn truncate(s: &str, max: usize) -> (r: String)
    ensures
        r@ == truncated(s@, max as nat),
{
    let v = chars_of(s);
    if v.len() <= max {
        return string_from_chars(v.as_slice());
    }
    let n = max.saturating_sub(1);
    let mut out: Vec<char> = Vec::new();
    let mut i: usize = 0;
    while i < n
        invariant
            i <= n,
            n < v.len(),
            out@ == v@.take(i as int),
        decreases n - i,
    {
        out.push(v[i]);
        i = i + 1;
        proof {
            assert(out@ =~= v@.take(i as int));
        }
    }
    out.push('\u{2026}');
    proof {
        assert(out@ =~= truncated(s@, max as nat));
    }
    string_from_chars(out.as_slice())
}

/// The final component of a path separated by `/` or `\`.
pub open spec fn after_last_sep(path: Seq<char>) -> Seq<char>
    decreases path.len(),
{
    if path.len() == 0 {
        path
    } else if path.last() == '/' || path.last() == '\\' {
        Seq::empty()
    } else {
        after_last_sep(path.drop_last()).push(path.last())
    }
}

/// The final path component (file name) of a slash- or backslash-separated
/// path.
pub fn base_name(path: &str) -> (r: String)
    ensures
        r@ == after_last_sep(path@),
{
    let v = chars_of(path);
    let mut k: usize = v.len();
    proof {
        assert(v@.take(k as int) =~= v@);
        assert(v@.skip(k as int) =~= Seq::<char>::empty());
        assert(after_last_sep(v@) + Seq::<char>::empty() =~= after_last_sep(v@));
    }
    while k > 0 && v[k - 1] != '/' && v[k - 1] != '\\'
        invariant
            k <= v.len(),
            after_last_sep(v@) == after_last_sep(v@.take(k as int)) + v@.skip(k as int),
        decreases k,
    {
        proof {
            assert(v@.take(k as int).drop_last() =~= v@.take(k - 1));
            assert(v@.take(k as int).last() == v@[k - 1]);
            assert(after_last_sep(v@.take(k - 1)).push(v@[k - 1]) + v@.skip(k as int) =~= after_last_sep(v@.take(k - 1)) + v@.skip(k - 1));
        }
        k = k - 1;
    }
    proof {
        if k > 0 {
            assert(v@.take(k as int).last() == v@[k - 1]);
        } else {
            assert(v@.take(0) =~= Seq::<char>::empty());
        }
        assert(after_last_sep(v@.take(k as int)) =~= Seq::<char>::empty());
    }
    let mut out: Vec<char> = Vec::new();
    let mut j: usize = k;
    while j < v.len()
        invariant
            k <= j <= v.len(),
            out@ == v@.subrange(k as int, j as int),
        decreases v.len() - j,
    {
        out.push(v[j]);
        j = j + 1;
        proof {
            assert(out@ =~= v@.subrange(k as int, j as int));
        }
    }
    proof {
        assert(out@ =~= v@.skip(k as int));
        assert(Seq::<char>::empty() + v@.skip(k as int) =~= v@.skip(k as int));
    }
    string_from_chars(out.as_slice())
}

} // verus!

verus! {

/// `path` with every `\` turned into `/`.
pub open spec fn slashed(path: Seq<char>) -> Seq<char> {
    path.map_values(|c: char| if c == '\\' { '/' } else { c })
}

/// A path piece that cannot leave or stay in place: not empty, `.` or `..`.
pub open spec fn safe_piece(p: Seq<char>) -> bool {
    p.len() != 0 && p != seq!['.'] && p != seq!['.', '.']
}

/// The safe pieces of `parts`, in order.
pub open spec fn safe_parts(parts: Seq<Seq<char>>) -> Seq<Seq<char>>
    decreases parts.len(),
{
    if parts.len() == 0 {
        parts
    } else if safe_piece(parts.last()) {
        safe_parts(parts.drop_last()).push(parts.last())
    } else {
        safe_parts(parts.drop_last())
    }
}

/// `parts` joined with `/`.
pub open spec fn join_slash(parts: Seq<Seq<char>>) -> Seq<char>
    decreases parts.len(),
{
    if parts.len() == 0 {
        Seq::empty()
    } else if parts.len() == 1 {
        parts[0]
    } else {
        join_slash(parts.drop_last()) + seq!['/'] + parts.last()
    }
}

/// The safe relative form of an archive member path: its pieces between `/`
/// and `\` separators, without empty, `.` and `..` pieces, joined with `/`;
/// `extracted` when no piece is left.
pub open spec fn member_path(path: Seq<char>) -> Seq<char> {
    let ps = safe_parts(split_on(slashed(path), '/'));
    if ps.len() == 0 {
        "extracted"@
    } else {
        join_slash(ps)
    }
}

/// Turn a stored archive member path into a safe relative host path: split
/// on both separators and drop empty, `.`, and `..` components. This
/// preserves subdirectories while preventing path traversal outside the
/// chosen folder.
pub fn sanitize_member_path(path: &str) -> (r: String)
    ensures
        r@ == member_path(path@),
{
    let v = chars_of(path);
    let mut s: Vec<char> = Vec::new();
    let mut i: usize = 0;
    while i < v.len()
        invariant
            i <= v.len(),
            s@ == slashed(v@.take(i as int)),
        decreases v.len() - i,
    {
        let c = v[i];
        s.push(if c == '\\' { '/' } else { c });
        i = i + 1;
        proof {
            assert(s@ =~= slashed(v@.take(i as int)));
        }
    }
    proof {
        assert(v@.take(i as int) =~= v@);
    }
    let parts = split_vec(s.as_slice(), '/');
    let ghost pv = parts@.map_values(|x: Vec<char>| x@);
    let mut out: Vec<char> = Vec::new();
    let mut count: usize = 0;
    let mut j: usize = 0;
    proof {
        assert(pv.take(0) =~= Seq::<Seq<char>>::empty());
    }
    while j < parts.len()
        invariant
            j <= parts.len(),
            pv == parts@.map_values(|x: Vec<char>| x@),
            count as int == safe_parts(pv.take(j as int)).len(),
            count <= j,
            out@ == join_slash(safe_parts(pv.take(j as int))),
        decreases parts.len() - j,
    {
        proof {
            assert(pv.take(j + 1).drop_last() =~= pv.take(j as int));
            assert(pv.take(j + 1).last() == parts@[j as int]@);
        }
        let p = &parts[j];
        let dot = p.len() == 1 && p[0] == '.';
        let dotdot = p.len() == 2 && p[0] == '.' && p[1] == '.';
        proof {
            if p@.len() == 1 && p@[0] == '.' {
                assert(p@ =~= seq!['.']);
            }
            if p@.len() == 2 && p@[0] == '.' && p@[1] == '.' {
                assert(p@ =~= seq!['.', '.']);
            }
        }
        if p.len() > 0 && !dot && !dotdot {
            let ghost before = out@;
            if count > 0 {
                out.push('/');
            }
            append_chars(&mut out, p.as_slice());
            count = count + 1;
            proof {
                let sp = safe_parts(pv.take(j as int));
                assert(safe_parts(pv.take(j + 1)) == sp.push(p@));
                assert(sp.push(p@).drop_last() =~= sp);
                if sp.len() == 0 {
                    assert(out@ =~= join_slash(sp.push(p@)));
                } else {
                    assert(out@ =~= join_slash(sp.push(p@)));
                }
            }
        }
        j = j + 1;
    }
    proof {
        assert(pv.take(j as int) =~= pv);
    }
    if count == 0 {
        return "extracted".to_owned();
    }
    string_from_chars(out.as_slice())
}

/// A piece without `/` splits as itself.
proof fn lemma_split_plain(b: Seq<char>)
    requires
        !b.contains('/'),
    ensures
        split_on(b, '/') == seq![b],
    decreases b.len(),
{
    if b.len() > 0 {
        let d = b.drop_last();
        assert(!d.contains('/')) by {
            if d.contains('/') {
                let k = choose|k: int| 0 <= k < d.len() && d[k] == '/';
                assert(b[k] == '/');
            }
        }
        lemma_split_plain(d);
        assert(b.last() != '/') by {
            assert(b[b.len() - 1] == b.last());
        }
        assert(d.push(b.last()) =~= b);
        assert(seq![d].update(0, d.push(b.last())) =~= seq![b]);
    } else {
        assert(b =~= Seq::<char>::empty());
    }
}

/// Appending `/` and a piece without `/` adds exactly that piece.
proof fn lemma_split_append(x: Seq<char>, b: Seq<char>)
    requires
        !b.contains('/'),
    ensures
        split_on(x + seq!['/'] + b, '/') == split_on(x, '/').push(b),
    decreases b.len(),
{
    if b.len() == 0 {
        assert(x + seq!['/'] + b =~= x.push('/'));
        assert((x.push('/')).drop_last() =~= x);
        assert(b =~= Seq::<char>::empty());
        assert(x.push('/').last() == '/');
    } else {
        let d = b.drop_last();
        assert(!d.contains('/')) by {
            if d.contains('/') {
                let k = choose|k: int| 0 <= k < d.len() && d[k] == '/';
                assert(b[k] == '/');
            }
        }
        lemma_split_append(x, d);
        let whole = x + seq!['/'] + b;
        assert(whole.drop_last() =~= x + seq!['/'] + d);
        assert(whole.last() == b.last());
        assert(b.last() != '/') by {
            assert(b[b.len() - 1] == b.last());
        }
        crate::text::lemma_split_nonempty(x, '/');
        let sx = split_on(x, '/');
        assert(split_on(whole.drop_last(), '/') == sx.push(d));
        assert(d.push(b.last()) =~= b);
        assert(sx.push(d).update(sx.len() as int, d.push(b.last())) =~= sx.push(b));
    }
}

/// Joining pieces without `/` and splitting again gives the pieces back.
pub proof fn lemma_split_join(ps: Seq<Seq<char>>)
    requires
        ps.len() >= 1,
        forall|i: int| 0 <= i < ps.len() ==> !(#[trigger] ps[i]).contains('/'),
    ensures
        split_on(join_slash(ps), '/') == ps,
    decreases ps.len(),
{
    if ps.len() == 1 {
        lemma_split_plain(ps[0]);
        assert(seq![ps[0]] =~= ps);
    } else {
        let d = ps.drop_last();
        assert forall|i: int| 0 <= i < d.len() implies !(#[trigger] d[i]).contains('/') by {
            assert(d[i] == ps[i]);
        }
        lemma_split_join(d);
        assert(!ps[ps.len() - 1].contains('/'));
        lemma_split_append(join_slash(d), ps.last());
        assert(d.push(ps.last()) =~= ps);
    }
}

/// Facts about the safe pieces: each is safe, and none holds `/` when the
/// input pieces hold none.
proof fn lemma_safe_parts(parts: Seq<Seq<char>>)
    ensures
        forall|i: int| 0 <= i < safe_parts(parts).len() ==> safe_piece(#[trigger] safe_parts(parts)[i]),
        (forall|i: int| 0 <= i < parts.len() ==> !(#[trigger] parts[i]).contains('/'))
            ==> forall|i: int| 0 <= i < safe_parts(parts).len() ==> !(#[trigger] safe_parts(parts)[i]).contains('/'),
    decreases parts.len(),
{
    if parts.len() > 0 {
        let d = parts.drop_last();
        lemma_safe_parts(d);
        let sd = safe_parts(d);
        assert forall|i: int| 0 <= i < safe_parts(parts).len() implies safe_piece(#[trigger] safe_parts(parts)[i]) by {
            if i < sd.len() {
                assert(safe_parts(parts)[i] == sd[i]);
            }
        }
        if forall|i: int| 0 <= i < parts.len() ==> !(#[trigger] parts[i]).contains('/') {
            assert forall|i: int| 0 <= i < d.len() implies !(#[trigger] d[i]).contains('/') by {
                assert(d[i] == parts[i]);
            }
            assert(!parts[parts.len() - 1].contains('/'));
            assert forall|i: int| 0 <= i < safe_parts(parts).len() implies !(#[trigger] safe_parts(parts)[i]).contains('/') by {
                if i < sd.len() {
                    assert(safe_parts(parts)[i] == sd[i]);
                }
            }
        }
    }
}

/// The pieces `split_on` yields never hold the separator.
pub proof fn lemma_split_pieces_plain(s: Seq<char>)
    ensures
        forall|i: int| 0 <= i < split_on(s, '/').len() ==> !(#[trigger] split_on(s, '/')[i]).contains('/'),
    decreases s.len(),
{
    if s.len() > 0 {
        let d = s.drop_last();
        lemma_split_pieces_plain(d);
        crate::text::lemma_split_nonempty(d, '/');
        let sd = split_on(d, '/');
        if s.last() != '/' {
            let last = sd.last().push(s.last());
            assert(!last.contains('/')) by {
                assert(!sd[sd.len() - 1].contains('/'));
                if last.contains('/') {
                    let k = choose|k: int| 0 <= k < last.len() && last[k] == '/';
                    if k < sd.last().len() {
                        assert(sd.last()[k] == '/');
                    }
                }
            }
            assert forall|i: int| 0 <= i < split_on(s, '/').len() implies !(#[trigger] split_on(s, '/')[i]).contains('/') by {
                if i < sd.len() - 1 {
                    assert(split_on(s, '/')[i] == sd[i]);
                }
            }
        } else {
            assert forall|i: int| 0 <= i < split_on(s, '/').len() implies !(#[trigger] split_on(s, '/')[i]).contains('/') by {
                if i < sd.len() {
                    assert(split_on(s, '/')[i] == sd[i]);
                } else {
                    assert(split_on(s, '/')[i] =~= Seq::<char>::empty());
                }
            }
        }
    }
}

/// An extracted member always lands inside the chosen folder: its path is
/// never empty, and splitting it at `/` gives back exactly the member path's
/// safe pieces (neither empty nor `.` nor `..`), or `extracted` alone when it
/// has none.
pub proof fn lemma_member_path_stays_inside(path: Seq<char>)
    ensures
        member_path(path).len() > 0,
        split_on(member_path(path), '/') == (if safe_parts(split_on(slashed(path), '/')).len() == 0 {
            seq!["extracted"@]
        } else {
            safe_parts(split_on(slashed(path), '/'))
        }),
        forall|i: int| 0 <= i < split_on(member_path(path), '/').len() ==> safe_piece(#[trigger] split_on(member_path(path), '/')[i]),
{
    let ps = safe_parts(split_on(slashed(path), '/'));
    lemma_split_pieces_plain(slashed(path));
    lemma_safe_parts(split_on(slashed(path), '/'));
    if ps.len() == 0 {
        reveal_strlit("extracted");
        let e = "extracted"@;
        assert(!e.contains('/')) by {
            if e.contains('/') {
                let k = choose|k: int| 0 <= k < e.len() && e[k] == '/';
                assert(e[k] != '/');
            }
        }
        lemma_split_plain(e);
        assert(safe_piece(e)) by {
            assert(e.len() == 9);
            assert(e != seq!['.']);
            assert(e[0] != '.');
            assert(e != seq!['.', '.']);
        }
    } else {
        lemma_split_join(ps);
        lemma_join_nonempty(ps);
    }
}

/// Splitting a path at `/` and joining the pieces with `/` gives it back.
pub proof fn lemma_join_split(s: Seq<char>)
    ensures
        join_slash(split_on(s, '/')) == s,
    decreases s.len(),
{
    if s.len() == 0 {
        assert(split_on(s, '/') == seq![Seq::<char>::empty()]);
        assert(s =~= Seq::<char>::empty());
    } else {
        let d = s.drop_last();
        lemma_join_split(d);
        crate::text::lemma_split_nonempty(d, '/');
        let sd = split_on(d, '/');
        let c = s.last();
        if c == '/' {
            let t = sd.push(Seq::<char>::empty());
            assert(t.drop_last() =~= sd);
            assert(join_slash(t) == join_slash(sd) + seq!['/'] + t.last());
            assert(s =~= d + seq!['/'] + Seq::<char>::empty());
        } else {
            let t = sd.update(sd.len() - 1, sd.last().push(c));
            if sd.len() == 1 {
                assert(join_slash(t) == t[0]);
                assert(join_slash(sd) == sd[0]);
                assert(s =~= d.push(c));
            } else {
                assert(t.drop_last() =~= sd.drop_last());
                assert(join_slash(t) == join_slash(t.drop_last()) + seq!['/'] + t.last());
                assert(join_slash(sd) == join_slash(sd.drop_last()) + seq!['/'] + sd.last());
                assert(s =~= d.push(c));
                assert(join_slash(t) =~= join_slash(sd).push(c));
            }
        }
    }
}

/// Joining at least one non-empty piece gives a non-empty path.
proof fn lemma_join_nonempty(ps: Seq<Seq<char>>)
    requires
        ps.len() >= 1,
        safe_piece(ps[0]),
    ensures
        join_slash(ps).len() > 0,
    decreases ps.len(),
{
    if ps.len() > 1 {
        assert(ps.drop_last()[0] == ps[0]);
        lemma_join_nonempty(ps.drop_last());
    }
}

} // verus!
