//! The topology provider: which other indices a given particle interacts
//! with topologically. Ring neighbors are defined by index adjacency modulo
//! the ensemble size; a configurable offset expresses both adjacent and
//! long-range neighbors.

use vstd::prelude::*;
use vstd::arithmetic::div_mod::lemma_div_is_strictly_smaller;
use vstd::arithmetic::div_mod::lemma_fundamental_div_mod_converse_mod;

verus! {

/// The index `offset` places after `i` around a ring of `n` particles.
pub open spec fn neighbor_of(i: int, offset: int, n: int) -> int
    recommends
        n >= 1,
{
    (i + offset) % n
}

/// The ring neighbor `offset` places after `i`, computed without overflow.
pub fn neighbor(i: usize, offset: usize, n: usize) -> (j: usize)
    requires
        1 <= n,
        i < n,
        offset < n,
    ensures
        j == neighbor_of(i as int, offset as int, n as int),
        j < n,
{
    let j: usize = if offset >= n - i {
        offset - (n - i)
    } else {
        i + offset
    };
    proof {
        if offset >= n - i {
            lemma_fundamental_div_mod_converse_mod(i + offset, n as int, 1, i + offset - n);
        } else {
            lemma_fundamental_div_mod_converse_mod(i + offset, n as int, 0, i + offset);
        }
    }
    j
}

/// The previous particle around the ring: one place back, as an offset of
/// `n - 1` forward.
pub fn ring_prev(i: usize, n: usize) -> (j: usize)
    requires
        1 <= n,
        i < n,
    ensures
        j == neighbor_of(i as int, n as int - 1, n as int),
        j < n,
{
    neighbor(i, n - 1, n)
}

/// The next particle around the ring.
pub fn ring_next(i: usize, n: usize) -> (j: usize)
    requires
        1 <= n,
        i < n,
    ensures
        j == neighbor_of(i as int, 1, n as int),
        j < n,
{
    if n == 1 {
        proof {
            lemma_fundamental_div_mod_converse_mod(i as int + 1, n as int, i as int + 1, 0);
        }
        i
    } else {
        neighbor(i, 1, n)
    }
}

/// The long-range neighbor a seventh of the way around the ring.
pub fn ring_seventh(i: usize, n: usize) -> (j: usize)
    requires
        1 <= n,
        i < n,
    ensures
        j == neighbor_of(i as int, n as int / 7, n as int),
        j < n,
{
    proof {
        lemma_div_is_strictly_smaller(n as int, 7);
    }
    neighbor(i, n / 7, n)
}

} // verus!
