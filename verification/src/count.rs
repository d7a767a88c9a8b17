//! Counting, without going past what a `usize` holds.
use vstd::prelude::*;

verus! {

/// `n`, or the greatest `usize` where that is less.
pub open spec fn capped(n: nat) -> usize {
    if n <= usize::MAX {
        n as usize
    } else {
        usize::MAX
    }
}

/// The sum of some numbers.
pub open spec fn total(ns: Seq<nat>) -> nat
    decreases ns.len(),
{
    if ns.len() == 0 {
        0
    } else {
        total(ns.drop_last()) + ns.last()
    }
}

/// Adding one number more.
pub proof fn lemma_total_next(ns: Seq<nat>, i: int)
    requires
        0 <= i < ns.len(),
    ensures
        total(ns.take(i + 1)) == total(ns.take(i)) + ns[i],
{
    assert(ns.take(i + 1).drop_last() =~= ns.take(i));
}

/// `n` times `k`, as far as a `usize` counts.
pub fn times(n: usize, k: usize) -> (r: usize)
    ensures
        r == capped((n * k) as nat),
{
    match n.checked_mul(k) {
        Some(product) => product,
        None => usize::MAX,
    }
}

} // verus!
