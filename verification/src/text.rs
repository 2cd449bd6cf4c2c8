use vstd::prelude::*;

verus! {

/// The characters of `s`, in order.
pub fn chars_of(s: &str) -> (v: Vec<char>)
    ensures
        v@ == s@,
{
    let mut v: Vec<char> = Vec::new();
    for c in it: s.chars()
        invariant
            v@ == it.seq().take(it.index() as int),
    {
        v.push(c);
    }
    v
}

/// Collects characters into a `String`. Calls `FromIterator<&char>` for
/// `String`, which appends each character in order.
#[verifier::external_body]
pub(crate) fn string_from_chars(v: &[char]) -> (s: String)
    ensures
        s@ == v@,
{
    v.iter().collect()
}

/// ASCII lowercase of one character (`char::to_ascii_lowercase`).
pub open spec fn lower(c: char) -> char {
    if 'A' <= c && c <= 'Z' {
        ((c as u32) + 32) as char
    } else {
        c
    }
}

/// ASCII uppercase of one character (`char::to_ascii_uppercase`).
pub open spec fn upper(c: char) -> char {
    if 'a' <= c && c <= 'z' {
        ((c as u32) - 32) as char
    } else {
        c
    }
}

pub fn to_ascii_lower(c: char) -> (r: char)
    ensures
        r == lower(c),
{
    if 'A' <= c && c <= 'Z' {
        let n: u8 = (c as u32 + 32) as u8;
        n as char
    } else {
        c
    }
}

pub fn to_ascii_upper(c: char) -> (r: char)
    ensures
        r == upper(c),
{
    if 'a' <= c && c <= 'z' {
        let n: u8 = (c as u32 - 32) as u8;
        n as char
    } else {
        c
    }
}

/// `char::eq_ignore_ascii_case`.
pub fn eq_ignore_ascii_case(a: char, b: char) -> (r: bool)
    ensures
        r == (lower(a) == lower(b)),
{
    to_ascii_lower(a) == to_ascii_lower(b)
}

} // verus!

verus! {

/// The digit character for `d` (`0`-`9`, then uppercase `A`-`Z`).
pub open spec fn digit_char(d: nat) -> char {
    if d < 10 {
        ((d + 48) as u32) as char
    } else {
        ((d - 10 + 65) as u32) as char
    }
}

/// The positional representation of `n` in `base` (2..=16), most significant
/// digit first, without leading zeros (`0` is the single digit `0`). This is
/// what `{}` (base 10) and `{:X}` (base 16) print for an unsigned integer.
pub open spec fn digits_of(n: nat, base: nat) -> Seq<char>
    decreases n,
{
    if base < 2 || n < base {
        seq![digit_char(n)]
    } else {
        proof {
            assert(n / base < n) by (nonlinear_arith)
                requires
                    n >= base,
                    base >= 2,
            ;
        }
        digits_of(n / base, base).push(digit_char(n % base))
    }
}

/// `s` padded on the left with `fill` up to `width` characters (unchanged when
/// it is already at least that long).
pub open spec fn pad_left(s: Seq<char>, width: nat, fill: char) -> Seq<char> {
    if s.len() >= width {
        s
    } else {
        Seq::new((width - s.len()) as nat, |_i: int| fill) + s
    }
}

/// `s` padded on the right with spaces up to `width` characters.
pub open spec fn pad_right(s: Seq<char>, width: nat) -> Seq<char> {
    if s.len() >= width {
        s
    } else {
        s + Seq::new((width - s.len()) as nat, |_i: int| ' ')
    }
}

fn digit_of(d: u64) -> (c: char)
    requires
        d < 16,
    ensures
        c == digit_char(d as nat),
{
    if d < 10 {
        let b: u8 = (d + 48) as u8;
        b as char
    } else {
        let b: u8 = (d - 10 + 65) as u8;
        b as char
    }
}

/// The digits of `n` in `base`, as `{}` / `{:X}` would print them.
pub fn radix_digits(n: u64, base: u64) -> (v: Vec<char>)
    requires
        2 <= base <= 16,
    ensures
        v@ == digits_of(n as nat, base as nat),
        1 <= v@.len(),
    decreases n,
{
    if n < base {
        let mut v: Vec<char> = Vec::new();
        v.push(digit_of(n));
        v
    } else {
        assert(n / base < n) by (nonlinear_arith)
            requires
                n >= base,
                base >= 2,
        ;
        let mut v = radix_digits(n / base, base);
        v.push(digit_of(n % base));
        v
    }
}

/// Prefixes `v` with `fill` until it is `width` characters long.
pub fn pad_left_vec(v: Vec<char>, width: usize, fill: char) -> (r: Vec<char>)
    ensures
        r@ == pad_left(v@, width as nat, fill),
{
    if v.len() >= width {
        v
    } else {
        let n = width - v.len();
        let mut r: Vec<char> = Vec::new();
        let mut i: usize = 0;
        while i < n
            invariant
                i <= n,
                r@ == Seq::new(i as nat, |_i: int| fill),
            decreases n - i,
        {
            r.push(fill);
            i = i + 1;
            proof {
                assert(r@ =~= Seq::new(i as nat, |_i: int| fill));
            }
        }
        let mut j: usize = 0;
        let ghost prefix = r@;
        while j < v.len()
            invariant
                j <= v.len(),
                prefix == Seq::new(n as nat, |_i: int| fill),
                r@ == prefix + v@.take(j as int),
            decreases v.len() - j,
        {
            r.push(v[j]);
            j = j + 1;
            proof {
                assert(r@ =~= prefix + v@.take(j as int));
            }
        }
        proof {
            assert(v@.take(v.len() as int) =~= v@);
        }
        r
    }
}

/// Appends spaces to `v` until it is `width` characters long.
pub fn pad_right_vec(v: Vec<char>, width: usize) -> (r: Vec<char>)
    ensures
        r@ == pad_right(v@, width as nat),
{
    let mut r = v;
    let ghost start = r@;
    if r.len() >= width {
        return r;
    }
    let n = width - r.len();
    let mut i: usize = 0;
    while i < n
        invariant
            i <= n,
            n == width - start.len(),
            r@ == start + Seq::new(i as nat, |_i: int| ' '),
        decreases n - i,
    {
        r.push(' ');
        i = i + 1;
        proof {
            assert(r@ =~= start + Seq::new(i as nat, |_i: int| ' '));
        }
    }
    r
}

/// Appends all of `src` to `dst`.
pub fn append_chars(dst: &mut Vec<char>, src: &[char])
    ensures
        final(dst)@ == old(dst)@ + src@,
{
    let ghost start = dst@;
    let mut j: usize = 0;
    while j < src.len()
        invariant
            j <= src.len(),
            dst@ == start + src@.take(j as int),
        decreases src.len() - j,
    {
        dst.push(src[j]);
        j = j + 1;
        proof {
            assert(dst@ =~= start + src@.take(j as int));
        }
    }
    proof {
        assert(src@.take(src.len() as int) =~= src@);
    }
}

/// Appends the characters of `s` to `dst`.
pub fn append_str(dst: &mut Vec<char>, s: &str)
    ensures
        final(dst)@ == old(dst)@ + s@,
{
    let v = chars_of(s);
    append_chars(dst, v.as_slice());
}

} // verus!

verus! {

/// The part of `s` before its first character that is in `seps` (all of `s`
/// when none is): what `s.split(seps).next()` yields.
pub open spec fn before_any(s: Seq<char>, seps: Seq<char>) -> Seq<char>
    decreases s.len(),
{
    if s.len() == 0 {
        s
    } else if seps.contains(s[0]) {
        Seq::empty()
    } else {
        seq![s[0]] + before_any(s.drop_first(), seps)
    }
}

/// `before_any` is a prefix of its input.
pub proof fn lemma_before_any_is_prefix(s: Seq<char>, seps: Seq<char>)
    ensures
        before_any(s, seps).len() <= s.len(),
        before_any(s, seps) == s.subrange(0, before_any(s, seps).len() as int),
    decreases s.len(),
{
    if s.len() > 0 && !seps.contains(s[0]) {
        lemma_before_any_is_prefix(s.drop_first(), seps);
        let t = before_any(s.drop_first(), seps);
        assert(seq![s[0]] + t =~= s.subrange(0, t.len() as int + 1));
    } else if s.len() > 0 {
        assert(Seq::<char>::empty() =~= s.subrange(0, 0));
    }
}

/// ASCII lowercase of every character.
pub open spec fn lower_all(s: Seq<char>) -> Seq<char> {
    s.map_values(|c: char| lower(c))
}

/// ASCII uppercase of every character.
pub open spec fn upper_all(s: Seq<char>) -> Seq<char> {
    s.map_values(|c: char| upper(c))
}

/// The prefix of `v` before its first character contained in `seps`.
pub fn before_any_exec(v: &[char], seps: &[char]) -> (r: Vec<char>)
    ensures
        r@ == before_any(v@, seps@),
{
    let mut r: Vec<char> = Vec::new();
    let mut i: usize = 0;
    proof {
        assert(v@.skip(0) =~= v@);
        assert(r@ + before_any(v@, seps@) =~= before_any(v@, seps@));
    }
    while i < v.len()
        invariant
            i <= v.len(),
            forall|k: int| 0 <= k < i ==> !seps@.contains(#[trigger] v@[k]),
            r@ == v@.take(i as int),
            before_any(v@, seps@) == r@ + before_any(v@.skip(i as int), seps@),
        decreases v.len() - i,
    {
        let c = v[i];
        if contains_char(seps, c) {
            proof {
                assert(v@.skip(i as int)[0] == c);
            }
            return r;
        }
        proof {
            assert(v@.skip(i as int).drop_first() =~= v@.skip(i + 1));
            assert(v@.take(i + 1) =~= v@.take(i as int).push(c));
            assert(r@.push(c) + before_any(v@.skip(i + 1), seps@) =~= r@ + (seq![c] + before_any(v@.skip(i + 1), seps@)));
        }
        r.push(c);
        i = i + 1;
    }
    proof {
        assert(v@.skip(i as int).len() == 0);
        assert(v@.take(i as int) =~= v@);
    }
    r
}

/// Whether `c` occurs in `v`.
pub fn contains_char(v: &[char], c: char) -> (r: bool)
    ensures
        r == v@.contains(c),
{
    let mut i: usize = 0;
    while i < v.len()
        invariant
            i <= v.len(),
            forall|k: int| 0 <= k < i ==> v@[k] != c,
        decreases v.len() - i,
    {
        if v[i] == c {
            assert(v@[i as int] == c);
            return true;
        }
        i = i + 1;
    }
    false
}

/// ASCII lowercase of every character of `v`.
pub fn lower_vec(v: &[char]) -> (r: Vec<char>)
    ensures
        r@ == lower_all(v@),
{
    let mut r: Vec<char> = Vec::new();
    let mut i: usize = 0;
    while i < v.len()
        invariant
            i <= v.len(),
            r@ == lower_all(v@.take(i as int)),
        decreases v.len() - i,
    {
        r.push(to_ascii_lower(v[i]));
        i = i + 1;
        proof {
            assert(r@ =~= lower_all(v@.take(i as int)));
        }
    }
    proof {
        assert(v@.take(i as int) =~= v@);
    }
    r
}

/// ASCII uppercase of every character of `v`.
pub fn upper_vec(v: &[char]) -> (r: Vec<char>)
    ensures
        r@ == upper_all(v@),
{
    let mut r: Vec<char> = Vec::new();
    let mut i: usize = 0;
    while i < v.len()
        invariant
            i <= v.len(),
            r@ == upper_all(v@.take(i as int)),
        decreases v.len() - i,
    {
        r.push(to_ascii_upper(v[i]));
        i = i + 1;
        proof {
            assert(r@ =~= upper_all(v@.take(i as int)));
        }
    }
    proof {
        assert(v@.take(i as int) =~= v@);
    }
    r
}

/// Whether two character sequences are equal.
pub fn chars_eq(a: &[char], b: &[char]) -> (r: bool)
    ensures
        r == (a@ == b@),
{
    if a.len() != b.len() {
        return false;
    }
    let mut i: usize = 0;
    while i < a.len()
        invariant
            a.len() == b.len(),
            i <= a.len(),
            forall|k: int| 0 <= k < i ==> a@[k] == b@[k],
        decreases a.len() - i,
    {
        if a[i] != b[i] {
            return false;
        }
        i = i + 1;
    }
    proof {
        assert(a@ =~= b@);
    }
    true
}

} // verus!

verus! {

/// Unicode `White_Space`, as `char::is_whitespace` tests it.
pub open spec fn is_ws(c: char) -> bool {
    ||| ('\u{9}' <= c && c <= '\u{d}')
    ||| c == ' '
    ||| c == '\u{85}'
    ||| c == '\u{a0}'
    ||| c == '\u{1680}'
    ||| ('\u{2000}' <= c && c <= '\u{200a}')
    ||| c == '\u{2028}'
    ||| c == '\u{2029}'
    ||| c == '\u{202f}'
    ||| c == '\u{205f}'
    ||| c == '\u{3000}'
}

pub fn is_whitespace(c: char) -> (r: bool)
    ensures
        r == is_ws(c),
{
    ('\u{9}' <= c && c <= '\u{d}') || c == ' ' || c == '\u{85}' || c == '\u{a0}' || c == '\u{1680}'
        || ('\u{2000}' <= c && c <= '\u{200a}') || c == '\u{2028}' || c == '\u{2029}' || c
        == '\u{202f}' || c == '\u{205f}' || c == '\u{3000}'
}

/// `s` without leading whitespace.
pub open spec fn trim_start(s: Seq<char>) -> Seq<char>
    decreases s.len(),
{
    if s.len() > 0 && is_ws(s[0]) {
        trim_start(s.drop_first())
    } else {
        s
    }
}

/// `s` without trailing whitespace.
pub open spec fn trim_end(s: Seq<char>) -> Seq<char>
    decreases s.len(),
{
    if s.len() > 0 && is_ws(s.last()) {
        trim_end(s.drop_last())
    } else {
        s
    }
}

/// `s` without leading and trailing whitespace (`str::trim`).
pub open spec fn trim(s: Seq<char>) -> Seq<char> {
    trim_end(trim_start(s))
}

/// `s` without its leading `c`, if it starts with one (`strip_prefix(c)`,
/// falling back to `s`).
pub open spec fn drop_char_prefix(s: Seq<char>, c: char) -> Seq<char> {
    if s.len() > 0 && s[0] == c {
        s.drop_first()
    } else {
        s
    }
}

/// Whether `s` begins with `p`.
pub open spec fn starts_with(s: Seq<char>, p: Seq<char>) -> bool {
    p.len() <= s.len() && s.take(p.len() as int) == p
}

/// Whether `s` ends with `p`.
pub open spec fn ends_with(s: Seq<char>, p: Seq<char>) -> bool {
    p.len() <= s.len() && s.skip(s.len() - p.len()) == p
}

/// The pieces of `s` between occurrences of `c` (`str::split(c)`): always at
/// least one piece, empty pieces included.
pub open spec fn split_on(s: Seq<char>, c: char) -> Seq<Seq<char>>
    decreases s.len(),
{
    if s.len() == 0 {
        seq![Seq::empty()]
    } else {
        let parts = split_on(s.drop_last(), c);
        if s.last() == c {
            parts.push(Seq::empty())
        } else {
            parts.update(parts.len() - 1, parts.last().push(s.last()))
        }
    }
}

/// `split_on` always yields at least one piece.
pub proof fn lemma_split_nonempty(s: Seq<char>, c: char)
    ensures
        split_on(s, c).len() >= 1,
    decreases s.len(),
{
    if s.len() > 0 {
        lemma_split_nonempty(s.drop_last(), c);
    }
}

/// The characters of `v` without leading and trailing whitespace.
pub fn trim_vec(v: &[char]) -> (r: Vec<char>)
    ensures
        r@ == trim(v@),
{
    let mut a: usize = 0;
    proof {
        assert(v@.skip(0) =~= v@);
    }
    while a < v.len() && is_whitespace(v[a])
        invariant
            a <= v.len(),
            trim_start(v@) == trim_start(v@.skip(a as int)),
        decreases v.len() - a,
    {
        proof {
            assert(v@.skip(a as int).drop_first() =~= v@.skip(a + 1));
        }
        a = a + 1;
    }
    let mut b: usize = v.len();
    let ghost mid = v@.skip(a as int);
    proof {
        assert(trim_start(v@) == mid);
        assert(mid.take(mid.len() as int) =~= mid);
    }
    while b > a && is_whitespace(v[b - 1])
        invariant
            a <= b <= v.len(),
            mid == v@.skip(a as int),
            trim_end(mid) == trim_end(mid.take(b - a)),
        decreases b,
    {
        proof {
            assert(mid.take(b - a).drop_last() =~= mid.take(b - 1 - a));
            assert(mid.take(b - a).last() == v@[b - 1]);
        }
        b = b - 1;
    }
    let mut r: Vec<char> = Vec::new();
    let mut i: usize = a;
    while i < b
        invariant
            a <= i <= b,
            b <= v.len(),
            r@ == v@.subrange(a as int, i as int),
        decreases b - i,
    {
        r.push(v[i]);
        i = i + 1;
        proof {
            assert(r@ =~= v@.subrange(a as int, i as int));
        }
    }
    proof {
        assert(r@ =~= mid.take(b - a));
    }
    r
}

/// `v` without a leading `c`, when it has one.
pub fn drop_char_prefix_vec(v: &[char], c: char) -> (r: Vec<char>)
    ensures
        r@ == drop_char_prefix(v@, c),
{
    let start: usize = if v.len() > 0 && v[0] == c { 1 } else { 0 };
    let mut r: Vec<char> = Vec::new();
    let mut i: usize = start;
    while i < v.len()
        invariant
            start <= i <= v.len(),
            r@ == v@.subrange(start as int, i as int),
        decreases v.len() - i,
    {
        r.push(v[i]);
        i = i + 1;
        proof {
            assert(r@ =~= v@.subrange(start as int, i as int));
        }
    }
    proof {
        assert(r@ =~= drop_char_prefix(v@, c));
    }
    r
}

/// The characters of `v` from `from` up to (not including) `to`.
pub fn slice_vec(v: &[char], from: usize, to: usize) -> (r: Vec<char>)
    requires
        from <= to <= v.len(),
    ensures
        r@ == v@.subrange(from as int, to as int),
{
    let mut r: Vec<char> = Vec::new();
    let mut i: usize = from;
    while i < to
        invariant
            from <= i <= to,
            to <= v.len(),
            r@ == v@.subrange(from as int, i as int),
        decreases to - i,
    {
        r.push(v[i]);
        i = i + 1;
        proof {
            assert(r@ =~= v@.subrange(from as int, i as int));
        }
    }
    r
}

/// Whether `v` begins with `p`.
pub fn starts_with_vec(v: &[char], p: &[char]) -> (r: bool)
    ensures
        r == starts_with(v@, p@),
{
    if p.len() > v.len() {
        return false;
    }
    let mut i: usize = 0;
    while i < p.len()
        invariant
            p.len() <= v.len(),
            i <= p.len(),
            forall|k: int| 0 <= k < i ==> v@[k] == p@[k],
        decreases p.len() - i,
    {
        if v[i] != p[i] {
            proof {
                assert(v@.take(p.len() as int)[i as int] != p@[i as int]);
            }
            return false;
        }
        i = i + 1;
    }
    proof {
        assert(v@.take(p.len() as int) =~= p@);
    }
    true
}

/// Whether `v` ends with `p`.
pub fn ends_with_vec(v: &[char], p: &[char]) -> (r: bool)
    ensures
        r == ends_with(v@, p@),
{
    if p.len() > v.len() {
        return false;
    }
    let off = v.len() - p.len();
    let mut i: usize = 0;
    while i < p.len()
        invariant
            p.len() <= v.len(),
            off == v.len() - p.len(),
            i <= p.len(),
            forall|k: int| 0 <= k < i ==> v@[off + k] == p@[k],
        decreases p.len() - i,
    {
        if v[off + i] != p[i] {
            proof {
                assert(v@.skip(off as int)[i as int] != p@[i as int]);
            }
            return false;
        }
        i = i + 1;
    }
    proof {
        assert(v@.skip(off as int) =~= p@);
    }
    true
}

/// Splits `v` at every `c` (`str::split(c)`).
pub fn split_vec(v: &[char], c: char) -> (r: Vec<Vec<char>>)
    ensures
        r@.map_values(|x: Vec<char>| x@) == split_on(v@, c),
{
    let mut parts: Vec<Vec<char>> = Vec::new();
    let mut cur: Vec<char> = Vec::new();
    let mut i: usize = 0;
    proof {
        assert(v@.take(0) =~= Seq::<char>::empty());
    }
    while i < v.len()
        invariant
            i <= v.len(),
            parts@.map_values(|x: Vec<char>| x@).push(cur@) == split_on(v@.take(i as int), c),
        decreases v.len() - i,
    {
        let ghost prev = v@.take(i as int);
        proof {
            assert(v@.take(i + 1).drop_last() =~= prev);
            assert(v@.take(i + 1).last() == v@[i as int]);
            lemma_split_nonempty(prev, c);
        }
        if v[i] == c {
            let done = cur;
            let ghost before = parts@.map_values(|x: Vec<char>| x@);
            parts.push(done);
            cur = Vec::new();
            proof {
                assert(parts@.map_values(|x: Vec<char>| x@) =~= before.push(done@));
                assert(parts@.map_values(|x: Vec<char>| x@).push(cur@) =~= split_on(prev, c).push(Seq::empty()));
            }
        } else {
            let ghost old_cur = cur@;
            cur.push(v[i]);
            proof {
                let sp = split_on(prev, c);
                assert(parts@.map_values(|x: Vec<char>| x@).push(cur@) =~= sp.update(sp.len() - 1, sp.last().push(v@[i as int])));
            }
        }
        i = i + 1;
    }
    proof {
        assert(v@.take(v.len() as int) =~= v@);
    }
    let ghost before = parts@.map_values(|x: Vec<char>| x@);
    parts.push(cur);
    proof {
        assert(parts@.map_values(|x: Vec<char>| x@) =~= before.push(cur@));
    }
    parts
}

} // verus!

verus! {

/// The value of digit character `c` in `base` (`0`-`9`, then `a`-`z` or
/// `A`-`Z` for 10 and up), when it is a digit of that base.
pub open spec fn digit_value(c: char, base: nat) -> Option<nat> {
    let v: int = if '0' <= c && c <= '9' {
        c as int - 48
    } else if 'a' <= c && c <= 'z' {
        c as int - 97 + 10
    } else if 'A' <= c && c <= 'Z' {
        c as int - 65 + 10
    } else {
        base as int
    };
    if 0 <= v < base {
        Some(v as nat)
    } else {
        None
    }
}

/// Every character of `s` is a digit of `base`.
pub open spec fn all_digits(s: Seq<char>, base: nat) -> bool {
    forall|i: int| 0 <= i < s.len() ==> (#[trigger] digit_value(s[i], base)) is Some
}

/// The number the digits `s` spell in `base`, most significant first.
pub open spec fn value_of(s: Seq<char>, base: nat) -> nat
    decreases s.len(),
{
    if s.len() == 0 {
        0
    } else {
        value_of(s.drop_last(), base) * base + digit_value(s.last(), base).unwrap()
    }
}

/// What `from_str_radix` yields for an unsigned integer type whose largest
/// value is `max`: an optional `+` (not on its own) followed by at least one
/// digit of `base`, with a value no larger than `max`.
pub open spec fn parse_unsigned(s: Seq<char>, base: nat, max: nat) -> Option<nat> {
    let d = if s.len() > 1 && s[0] == '+' { s.drop_first() } else { s };
    if d.len() > 0 && all_digits(d, base) && value_of(d, base) <= max {
        Some(value_of(d, base))
    } else {
        None
    }
}

/// The decimal digits of `n` are digits, read back as `n`.
pub proof fn lemma_decimal_digits(n: nat)
    ensures
        digits_of(n, 10).len() >= 1,
        all_digits(digits_of(n, 10), 10),
        value_of(digits_of(n, 10), 10) == n,
        forall|k: int| 0 <= k < digits_of(n, 10).len() ==> '0' <= #[trigger] digits_of(n, 10)[k] <= '9',
    decreases n,
{
    let d = digits_of(n, 10);
    if n < 10 {
        assert(d == seq![digit_char(n)]);
        assert(digit_value(digit_char(n), 10) == Some(n));
        assert(d.drop_last() =~= Seq::<char>::empty());
        assert(value_of(d, 10) == value_of(d.drop_last(), 10) * 10 + n);
    } else {
        lemma_decimal_digits(n / 10);
        let h = digits_of(n / 10, 10);
        let c = digit_char(n % 10);
        assert(d == h.push(c));
        assert(digit_value(c, 10) == Some(n % 10));
        assert(d.drop_last() =~= h);
        assert forall|k: int| 0 <= k < d.len() implies (#[trigger] digit_value(d[k], 10)) is Some by {
            if k < h.len() {
                assert(d[k] == h[k]);
            }
        }
        assert forall|k: int| 0 <= k < d.len() implies '0' <= #[trigger] d[k] <= '9' by {
            if k < h.len() {
                assert(d[k] == h[k]);
            }
        }
        assert(value_of(d, 10) == value_of(h, 10) * 10 + n % 10);
        assert((n / 10) * 10 + n % 10 == n) by (nonlinear_arith);
    }
}

/// A digit as `{}` or `{:X}` writes it: `0`–`9`, or an uppercase `A`–`F`.
pub open spec fn upper_hex_digit(c: char) -> bool {
    ('0' <= c && c <= '9') || ('A' <= c && c <= 'F')
}

/// The digits of `n` in `base` (2 to 16) are digits of that base, written
/// `0`–`9` and uppercase `A`–`F`, and they spell `n`.
pub proof fn lemma_digits_value(n: nat, base: nat)
    requires
        2 <= base <= 16,
    ensures
        digits_of(n, base).len() >= 1,
        all_digits(digits_of(n, base), base),
        value_of(digits_of(n, base), base) == n,
        forall|k: int| 0 <= k < digits_of(n, base).len() ==> upper_hex_digit(#[trigger] digits_of(n, base)[k]),
    decreases n,
{
    let d = digits_of(n, base);
    if n < base {
        assert(d == seq![digit_char(n)]);
        assert(digit_value(digit_char(n), base) == Some(n));
        assert(d.drop_last() =~= Seq::<char>::empty());
        assert(value_of(d.drop_last(), base) == 0);
        assert(0 * base == 0) by (nonlinear_arith);
        assert(value_of(d, base) == value_of(d.drop_last(), base) * base + n);
    } else {
        assert(n / base < n) by (nonlinear_arith)
            requires
                n >= base,
                base >= 2,
        ;
        lemma_digits_value(n / base, base);
        let h = digits_of(n / base, base);
        let r = n % base;
        let c = digit_char(r);
        assert(d == h.push(c));
        assert(digit_value(c, base) == Some(r));
        assert(d.drop_last() =~= h);
        assert forall|k: int| 0 <= k < d.len() implies (#[trigger] digit_value(d[k], base)) is Some by {
            if k < h.len() {
                assert(d[k] == h[k]);
            }
        }
        assert forall|k: int| 0 <= k < d.len() implies upper_hex_digit(#[trigger] d[k]) by {
            if k < h.len() {
                assert(d[k] == h[k]);
            }
        }
        assert(value_of(d, base) == value_of(h, base) * base + r);
        assert((n / base) * base + n % base == n) by (nonlinear_arith)
            requires
                base >= 2,
        ;
        assert(value_of(h, base) * base == (n / base) * base);
    }
}

/// Zeros in front of a number's digits change neither its value nor its
/// being made of digits.
pub proof fn lemma_zero_padded_value(s: Seq<char>, width: nat, base: nat)
    requires
        2 <= base <= 16,
        all_digits(s, base),
    ensures
        all_digits(pad_left(s, width, '0'), base),
        value_of(pad_left(s, width, '0'), base) == value_of(s, base),
    decreases width,
{
    if s.len() < width {
        let z = Seq::new((width - s.len()) as nat, |_i: int| '0');
        let p = pad_left(s, width, '0');
        assert(p == z + s);
        lemma_zero_prefix_value(z, s, base);
        assert forall|i: int| 0 <= i < p.len() implies (#[trigger] digit_value(p[i], base)) is Some by {
            if i < z.len() {
                assert(p[i] == '0');
            } else {
                assert(p[i] == s[i - z.len()]);
            }
        }
    }
}

proof fn lemma_zero_prefix_value(z: Seq<char>, s: Seq<char>, base: nat)
    requires
        2 <= base <= 16,
        forall|i: int| 0 <= i < z.len() ==> z[i] == '0',
    ensures
        value_of(z + s, base) == value_of(s, base),
    decreases s.len(), z.len(),
{
    if s.len() > 0 {
        assert((z + s).drop_last() =~= z + s.drop_last());
        assert((z + s).last() == s.last());
        lemma_zero_prefix_value(z, s.drop_last(), base);
        assert(value_of(z + s, base) == value_of(z + s.drop_last(), base) * base + digit_value(s.last(), base).unwrap());
    } else if z.len() > 0 {
        assert(z + s =~= z);
        assert(z.drop_last().len() < z.len());
        lemma_zero_prefix_value(z.drop_last(), s, base);
        assert(z.drop_last() + s =~= z.drop_last());
        assert(digit_value('0', base) == Some(0nat));
        assert(value_of(s, base) == 0);
        assert(value_of(z.drop_last(), base) == 0);
        assert(0 * base == 0) by (nonlinear_arith);
        assert(value_of(z, base) == value_of(z.drop_last(), base) * base + 0);
    } else {
        assert(z + s =~= s);
    }
}

/// A larger number never has fewer digits.
pub proof fn lemma_digits_len_monotone(a: nat, b: nat, base: nat)
    requires
        2 <= base <= 16,
        a <= b,
    ensures
        digits_of(a, base).len() <= digits_of(b, base).len(),
    decreases b,
{
    if a >= base {
        assert(a / base <= b / base) by (nonlinear_arith)
            requires
                a <= b,
                base >= 2,
        ;
        assert(b / base < b) by (nonlinear_arith)
            requires
                b >= base,
                base >= 2,
        ;
        lemma_digits_len_monotone(a / base, b / base, base);
    }
}

/// Reading the decimal digits of `n` gives `n` back, when it fits `max`.
pub proof fn lemma_parse_decimal_digits(n: nat, max: nat)
    requires
        n <= max,
    ensures
        parse_unsigned(digits_of(n, 10), 10, max) == Some(n),
{
    lemma_decimal_digits(n);
    let d = digits_of(n, 10);
    assert('0' <= d[0] <= '9');
}

fn digit_value_exec(c: char, base: u64) -> (r: Option<u64>)
    requires
        2 <= base <= 36,
    ensures
        match r {
            Some(v) => digit_value(c, base as nat) == Some(v as nat),
            None => digit_value(c, base as nat) is None,
        },
{
    let v: u64 = if '0' <= c && c <= '9' {
        (c as u32 - 48) as u64
    } else if 'a' <= c && c <= 'z' {
        (c as u32 - 97 + 10) as u64
    } else if 'A' <= c && c <= 'Z' {
        (c as u32 - 65 + 10) as u64
    } else {
        base
    };
    if v < base {
        Some(v)
    } else {
        None
    }
}

/// Extending a digit string never makes its value smaller.
proof fn lemma_value_prefix(s: Seq<char>, base: nat, k: int)
    requires
        1 <= base,
        0 <= k <= s.len(),
        all_digits(s, base),
    ensures
        value_of(s.take(k), base) <= value_of(s, base),
    decreases s.len() - k,
{
    if k < s.len() {
        let t = s.take(k + 1);
        assert(t.drop_last() =~= s.take(k));
        assert(digit_value(t.last(), base) is Some) by {
            assert(t.last() == s[k]);
        }
        assert(value_of(s.take(k), base) <= value_of(s.take(k), base) * base) by (nonlinear_arith)
            requires
                base >= 1,
        ;
        lemma_value_prefix(s, base, k + 1);
    } else {
        assert(s.take(k) =~= s);
    }
}

/// Parses an unsigned integer in `base` that must not exceed `max`, the way
/// `from_str_radix` does.
pub fn parse_unsigned_vec(v: &[char], base: u64, max: u64) -> (r: Option<u64>)
    requires
        2 <= base <= 16,
    ensures
        match r {
            Some(n) => parse_unsigned(v@, base as nat, max as nat) == Some(n as nat),
            None => parse_unsigned(v@, base as nat, max as nat) is None,
        },
{
    let start: usize = if v.len() > 1 && v[0] == '+' { 1 } else { 0 };
    let ghost d = if v@.len() > 1 && v@[0] == '+' { v@.drop_first() } else { v@ };
    proof {
        assert(d =~= v@.skip(start as int));
    }
    if start >= v.len() {
        return None;
    }
    let mut acc: u64 = 0;
    let mut i: usize = start;
    proof {
        assert(d.take(0) =~= Seq::<char>::empty());
    }
    while i < v.len()
        invariant
            start <= i <= v.len(),
            d == v@.skip(start as int),
            d == (if v@.len() > 1 && v@[0] == '+' { v@.drop_first() } else { v@ }),
            2 <= base <= 16,
            all_digits(d.take(i - start), base as nat),
            acc as nat == value_of(d.take(i - start), base as nat),
            acc <= max,
        decreases v.len() - i,
    {
        let ghost k = i - start;
        proof {
            assert(d.take(k + 1).drop_last() =~= d.take(k));
            assert(d.take(k + 1).last() == v@[i as int]);
        }
        match digit_value_exec(v[i], base) {
            None => {
                proof {
                    assert(d[k] == v@[i as int]);
                    assert(!all_digits(d, base as nat));
                }
                return None;
            },
            Some(dv) => {
                proof {
                    assert(value_of(d.take(k + 1), base as nat) == acc * base + dv);
                }
                if dv > max {
                    proof {
                        assert(acc * base + dv > max) by (nonlinear_arith)
                            requires
                                dv > max,
                                acc >= 0,
                                base >= 2,
                        ;
                        if all_digits(d, base as nat) {
                            lemma_value_prefix(d, base as nat, k + 1);
                        }
                    }
                    return None;
                }
                let q = (max - dv) / base;
                if acc > q {
                    proof {
                        assert(acc * base + dv > max) by (nonlinear_arith)
                            requires
                                acc > q,
                                q as int == (max as int - dv as int) / (base as int),
                                base >= 2,
                                dv <= max,
                        ;
                        if all_digits(d, base as nat) {
                            lemma_value_prefix(d, base as nat, k + 1);
                        }
                    }
                    return None;
                }
                proof {
                    assert(acc * base + dv <= max) by (nonlinear_arith)
                        requires
                            acc <= q,
                            q as int == (max as int - dv as int) / (base as int),
                            base >= 2,
                            dv <= max,
                    ;
                    assert forall|j: int| 0 <= j < k + 1 implies (#[trigger] digit_value(d.take(k + 1)[j], base as nat)) is Some by {
                        if j < k {
                            assert(d.take(k + 1)[j] == d.take(k)[j]);
                        }
                    }
                }
                acc = acc * base + dv;
            },
        }
        i = i + 1;
    }
    proof {
        assert(d.take(i - start) =~= d);
    }
    Some(acc)
}

} // verus!
