//! Partitioning the particle index range over a fixed worker count: worker
//! `k` of `t` owns the contiguous sub-range
//! `[n * k / t, n * (k + 1) / t)`. The lemmas below show that the sub-ranges
//! tile `[0, n)` exactly — no gaps, no overlaps — and are balanced to within
//! one element; that disjointness is what makes the lock-free concurrent
//! evaluation phase race-free.

use vstd::prelude::*;
use vstd::arithmetic::div_mod::lemma_div_by_multiple;
use vstd::arithmetic::div_mod::lemma_div_is_ordered;
use vstd::arithmetic::div_mod::lemma_div_pos_is_pos;
use vstd::arithmetic::div_mod::lemma_fundamental_div_mod;
use vstd::arithmetic::div_mod::lemma_fundamental_div_mod_converse_div;
use vstd::arithmetic::mul::lemma_mul_inequality;
use vstd::arithmetic::mul::lemma_mul_is_commutative;

verus! {

/// The first index of worker `k`'s sub-range when `n` particles are split
/// over `t` workers; the sub-range ends where worker `k + 1`'s begins.
pub open spec fn part_start(n: int, t: int, k: int) -> int
    recommends
        t >= 1,
{
    (n * k) / t
}

/// Partition starts are in range and ordered: the first is 0, the last ends
/// at `n`, and they never decrease.
pub proof fn lemma_part_start_ordered(n: int, t: int, k1: int, k2: int)
    requires
        t >= 1,
        n >= 0,
        0 <= k1 <= k2,
    ensures
        0 <= part_start(n, t, k1) <= part_start(n, t, k2),
        part_start(n, t, 0) == 0,
        part_start(n, t, t) == n,
{
    lemma_mul_inequality(k1, k2, n);
    lemma_mul_is_commutative(k1, n);
    lemma_mul_is_commutative(k2, n);
    lemma_div_is_ordered(n * k1, n * k2, t);
    assert(n * 0 == 0) by (nonlinear_arith);
    assert(0int / t == 0);
    lemma_div_pos_is_pos(n * k1, t);
    assert(n * k1 >= 0) by (nonlinear_arith)
        requires
            n >= 0,
            k1 >= 0,
    ;
    lemma_div_by_multiple(n, t);
}

/// No gaps: every index in `[0, n)` lies in the sub-range of some worker.
/// Together with `lemma_partition_disjoint` this says the sub-ranges cover
/// `[0, n)` exactly once each.
pub proof fn lemma_partition_covers(n: int, t: int, i: int)
    requires
        t >= 1,
        0 <= i < n,
    ensures
        exists|k: int|
            0 <= k < t && #[trigger] part_start(n, t, k) <= i < part_start(n, t, k + 1),
{
    lemma_part_start_ordered(n, t, 0, 0);
    lemma_partition_covers_from(n, t, 0, i);
}

/// Helper for coverage: the sub-ranges from `k` on tile `[part_start(k), n)`.
proof fn lemma_partition_covers_from(n: int, t: int, k: int, i: int)
    requires
        t >= 1,
        0 <= k < t,
        0 <= i,
        part_start(n, t, k) <= i < n,
    ensures
        exists|j: int|
            k <= j < t && #[trigger] part_start(n, t, j) <= i < part_start(n, t, j + 1),
    decreases t - k,
{
    if i < part_start(n, t, k + 1) {
        assert(k <= k < t && part_start(n, t, k) <= i < part_start(n, t, k + 1));
    } else {
        lemma_part_start_ordered(n, t, k + 1, t);
        assert(k + 1 < t) by {
            if k + 1 == t {
                assert(part_start(n, t, t) == n);
            }
        }
        lemma_partition_covers_from(n, t, k + 1, i);
        let j = choose|j: int|
            k + 1 <= j < t && #[trigger] part_start(n, t, j) <= i < part_start(n, t, j + 1);
        assert(k <= j < t && part_start(n, t, j) <= i < part_start(n, t, j + 1));
    }
}

/// No overlaps: the sub-ranges of two distinct workers share no index.
pub proof fn lemma_partition_disjoint(n: int, t: int, k1: int, k2: int)
    requires
        t >= 1,
        n >= 0,
        0 <= k1 < k2 < t,
    ensures
        part_start(n, t, k1 + 1) <= part_start(n, t, k2),
{
    lemma_part_start_ordered(n, t, k1 + 1, k2);
}

/// Exactly once: an index lies in the sub-ranges of at most one worker.
pub proof fn lemma_partition_owner_unique(n: int, t: int, i: int, k1: int, k2: int)
    requires
        t >= 1,
        n >= 0,
        0 <= k1 < t,
        0 <= k2 < t,
        part_start(n, t, k1) <= i < part_start(n, t, k1 + 1),
        part_start(n, t, k2) <= i < part_start(n, t, k2 + 1),
    ensures
        k1 == k2,
{
    if k1 < k2 {
        lemma_partition_disjoint(n, t, k1, k2);
    }
    if k2 < k1 {
        lemma_partition_disjoint(n, t, k2, k1);
    }
}

/// The sub-ranges are balanced: every worker owns either `n / t` or
/// `n / t + 1` indices, so `t > n` leaves some workers an empty range.
pub proof fn lemma_partition_balanced(n: int, t: int, k: int)
    requires
        t >= 1,
        n >= 0,
        0 <= k < t,
    ensures
        n / t <= part_start(n, t, k + 1) - part_start(n, t, k) <= n / t + 1,
{
    let q1 = (n * k) / t;
    let r1 = (n * k) % t;
    let q2 = n / t;
    let r2 = n % t;
    lemma_fundamental_div_mod(n * k, t);
    lemma_fundamental_div_mod(n, t);
    assert(n * (k + 1) == n * k + n) by (nonlinear_arith);
    if r1 + r2 < t {
        assert(n * (k + 1) == t * (q1 + q2) + (r1 + r2)) by (nonlinear_arith)
            requires
                n * (k + 1) == n * k + n,
                n * k == t * q1 + r1,
                n == t * q2 + r2,
        ;
        lemma_fundamental_div_mod_converse_div(n * (k + 1), t, q1 + q2, r1 + r2);
    } else {
        assert(n * (k + 1) == t * (q1 + q2 + 1) + (r1 + r2 - t)) by (nonlinear_arith)
            requires
                n * (k + 1) == n * k + n,
                n * k == t * q1 + r1,
                n == t * q2 + r2,
        ;
        lemma_fundamental_div_mod_converse_div(n * (k + 1), t, q1 + q2 + 1, r1 + r2 - t);
    }
}

/// The first and the one-past-the-last index of worker `k`'s sub-range.
pub fn worker_range(n: usize, t: usize, k: usize) -> (r: (usize, usize))
    requires
        1 <= t,
        k < t,
    ensures
        r.0 == part_start(n as int, t as int, k as int),
        r.1 == part_start(n as int, t as int, k as int + 1),
        r.0 <= r.1 <= n,
{
    proof {
        lemma_part_start_ordered(n as int, t as int, k as int, k as int + 1);
        lemma_part_start_ordered(n as int, t as int, k as int + 1, t as int);
        assert((n as int) * (k as int) <= 0xFFFF_FFFF_FFFF_FFFF * 0xFFFF_FFFF_FFFF_FFFF)
            by (nonlinear_arith)
            requires
                0 <= n <= 0xFFFF_FFFF_FFFF_FFFF,
                0 <= k <= 0xFFFF_FFFF_FFFF_FFFF,
        ;
        assert((n as int) * (k as int + 1) <= 0xFFFF_FFFF_FFFF_FFFF * 0x1_0000_0000_0000_0000)
            by (nonlinear_arith)
            requires
                0 <= n <= 0xFFFF_FFFF_FFFF_FFFF,
                0 <= k + 1 <= 0x1_0000_0000_0000_0000,
        ;
    }
    let lo: usize = ((n as u128) * (k as u128) / (t as u128)) as usize;
    let hi: usize = ((n as u128) * (k as u128 + 1) / (t as u128)) as usize;
    (lo, hi)
}

} // verus!
