//! How release versions are ordered when deciding whether an update exists.

use vstd::prelude::*;

use crate::update::{newer, version_gt, version_of};

verus! {

/// A version triple's position on one number line: major, then minor, then
/// patch, each component worth more than every value of the ones after it.
pub open spec fn version_rank(v: (u64, u64, u64)) -> int {
    v.0 * 0x1_0000_0000_0000_0000_0000_0000_0000_0000int + v.1 * 0x1_0000_0000_0000_0000int + v.2
}

proof fn lemma_rank_step(hi_a: int, hi_b: int, lo_a: int, lo_b: int, k: int)
    requires
        k > 0,
        hi_a > hi_b,
        0 <= lo_a < k,
        0 <= lo_b < k,
    ensures
        hi_a * k + lo_a > hi_b * k + lo_b,
{
    assert(hi_a * k >= (hi_b + 1) * k) by (nonlinear_arith)
        requires
            k > 0,
            hi_a >= hi_b + 1,
    ;
    assert((hi_b + 1) * k == hi_b * k + k) by (nonlinear_arith);
}

/// "Newer" compares versions as numbers on that line: a release is newer
/// exactly when its rank is greater.
pub proof fn lemma_version_gt_is_rank_order(a: (u64, u64, u64), b: (u64, u64, u64))
    ensures
        version_gt(a, b) <==> version_rank(a) > version_rank(b),
{
    let k: int = 0x1_0000_0000_0000_0000int;
    assert(k * k == 0x1_0000_0000_0000_0000_0000_0000_0000_0000int) by (nonlinear_arith)
        requires
            k == 0x1_0000_0000_0000_0000int,
    ;
    let la = a.1 * k + a.2;
    let lb = b.1 * k + b.2;
    assert(0 <= la < k * k) by (nonlinear_arith)
        requires
            0 <= a.1 < k,
            0 <= a.2 < k,
            la == a.1 * k + a.2,
    ;
    assert(0 <= lb < k * k) by (nonlinear_arith)
        requires
            0 <= b.1 < k,
            0 <= b.2 < k,
            lb == b.1 * k + b.2,
    ;
    assert(version_rank(a) == a.0 * (k * k) + la) by (nonlinear_arith)
        requires
            k == 0x1_0000_0000_0000_0000int,
            k * k == 0x1_0000_0000_0000_0000_0000_0000_0000_0000int,
            la == a.1 * k + a.2,
    ;
    assert(version_rank(b) == b.0 * (k * k) + lb) by (nonlinear_arith)
        requires
            k == 0x1_0000_0000_0000_0000int,
            k * k == 0x1_0000_0000_0000_0000_0000_0000_0000_0000int,
            lb == b.1 * k + b.2,
    ;
    if a.0 > b.0 {
        lemma_rank_step(a.0 as int, b.0 as int, la, lb, k * k);
    } else if a.0 < b.0 {
        lemma_rank_step(b.0 as int, a.0 as int, lb, la, k * k);
    } else {
        if a.1 > b.1 {
            lemma_rank_step(a.1 as int, b.1 as int, a.2 as int, b.2 as int, k);
        } else if a.1 < b.1 {
            lemma_rank_step(b.1 as int, a.1 as int, b.2 as int, a.2 as int, k);
        }
    }
}

/// The order is lexicographic on (major, minor, patch): a bigger major wins
/// outright; with equal majors a bigger minor wins; with equal major and
/// minor the patch alone decides, whatever the major is.
pub proof fn lemma_version_gt_lexicographic(a: (u64, u64, u64), b: (u64, u64, u64))
    ensures
        a.0 > b.0 ==> version_gt(a, b),
        a.0 < b.0 ==> !version_gt(a, b),
        a.0 == b.0 && a.1 > b.1 ==> version_gt(a, b),
        a.0 == b.0 && a.1 < b.1 ==> !version_gt(a, b),
        a.0 == b.0 && a.1 == b.1 ==> (version_gt(a, b) <==> a.2 > b.2),
{
    lemma_version_gt_is_rank_order(a, b);
    if a.0 == b.0 && a.1 == b.1 {
        assert(version_rank(a) - version_rank(b) == a.2 - b.2);
    }
}

/// Of two different versions exactly one is the newer, and "newer" chains.
pub proof fn lemma_version_gt_total_order(a: (u64, u64, u64), b: (u64, u64, u64), c: (u64, u64, u64))
    ensures
        a != b ==> (version_gt(a, b) || version_gt(b, a)),
        !(version_gt(a, b) && version_gt(b, a)),
        !version_gt(a, a),
        version_gt(a, b) && version_gt(b, c) ==> version_gt(a, c),
{
}

/// A release whose tag names the running version with its major, minor or
/// patch number raised (the later numbers reset or not) is offered as an
/// update; the running version itself never is.
pub proof fn lemma_bumped_release_is_newer(current: Seq<char>, latest: Seq<char>)
    requires
        version_of(current) is Some,
        version_of(latest) is Some,
    ensures
        ({
            let c = version_of(current)->0;
            let l = version_of(latest)->0;
            l.0 == c.0 && l.1 == c.1 && l.2 > c.2 ==> newer(current, latest)
        }),
        ({
            let c = version_of(current)->0;
            let l = version_of(latest)->0;
            l.0 == c.0 && l.1 > c.1 ==> newer(current, latest)
        }),
        ({
            let c = version_of(current)->0;
            let l = version_of(latest)->0;
            l.0 > c.0 ==> newer(current, latest)
        }),
        newer(current, latest) <==> version_rank(version_of(latest)->0) > version_rank(
            version_of(current)->0,
        ),
        !newer(current, current),
{
    lemma_version_gt_lexicographic(version_of(latest)->0, version_of(current)->0);
    lemma_version_gt_is_rank_order(version_of(latest)->0, version_of(current)->0);
}

} // verus!
