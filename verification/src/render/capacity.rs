//! Growth of GPU buffers: a buffer that is too small is replaced by one whose
//! size is the next power of two.

use vstd::prelude::*;
use vstd::arithmetic::power2::{pow2, lemma_pow2_unfold, lemma2_to64, lemma2_to64_rest, lemma_pow2_strictly_increases};

verus! {

/// `p` is the smallest power of two that is at least `n`.
pub open spec fn is_next_power_of_two(n: u64, p: u64) -> bool {
    exists|k: nat| {
        &&& #[trigger] pow2(k) == p
        &&& p >= n
        &&& (k == 0 || pow2((k - 1) as nat) < n)
    }
}

/// The smallest power of two that is at least `n` (1 for 0).
pub fn next_power_of_two(n: u64) -> (r: u64)
    requires
        n <= 0x8000_0000_0000_0000,
    ensures
        is_next_power_of_two(n, r),
{
    let mut p: u64 = 1;
    let ghost mut k: nat = 0;
    proof {
        lemma2_to64();
    }
    while p < n
        invariant
            n <= 0x8000_0000_0000_0000,
            p == pow2(k),
            1 <= p <= 0x8000_0000_0000_0000,
            k <= 63,
            k == 0 || pow2((k - 1) as nat) < n,
        decreases 0x8000_0000_0000_0000 - p,
    {
        proof {
            lemma_pow2_unfold(k + 1);
            lemma2_to64();
            lemma2_to64_rest();
            if k > 62 {
                if k > 63 {
                    lemma_pow2_strictly_increases(63, k);
                }
                assert(false);
            }
            if k < 62 {
                lemma_pow2_strictly_increases(k, 62);
            }
        }
        p = p * 2;
        proof {
            k = k + 1;
        }
    }
    assert(pow2(k) == p && p >= n && (k == 0 || pow2((k - 1) as nat) < n));
    p
}

/// The size a buffer must be replaced with so that `needed` bytes fit, or
/// `None` when the current buffer (`capacity` bytes, `allocated` telling
/// whether it exists at all) already holds them.
pub fn grown_capacity(capacity: u64, needed: u64, allocated: bool) -> (r: Option<u64>)
    requires
        needed <= 0x8000_0000_0000_0000,
    ensures
        (needed <= capacity && allocated) ==> r.is_none(),
        !(needed <= capacity && allocated) ==> (r matches Some(p) && is_next_power_of_two(needed, p)),
{
    if needed > capacity || !allocated {
        Some(next_power_of_two(needed))
    } else {
        None
    }
}

} // verus!
