//! Sequence lengths the transform accepts: the powers of two.
use vstd::arithmetic::power2::{
    lemma2_to64, lemma_pow2_pos, lemma_pow2_strictly_increases, lemma_pow2_unfold, pow2,
};
use vstd::prelude::*;

verus! {

/// `n` is `2^k` for some `k`.
pub open spec fn is_power_of_two(n: nat) -> bool {
    exists|k: nat| n == pow2(k)
}

/// A length strictly between two neighbouring powers of two is none itself.
proof fn lemma_between_powers(n: nat, k: nat)
    requires
        forall|j: nat| j < k ==> pow2(j) < n,
        n < pow2(k),
    ensures
        !is_power_of_two(n),
{
    assert forall|j: nat| n != pow2(j) by {
        if j > k {
            lemma_pow2_strictly_increases(k, j);
        }
    }
}

/// The number of halvings that take a sequence of length `n` down to a single
/// sample: `Some(k)` when `n` is `2^k`, and `None` when `n` is not a power of
/// two, zero included.
pub fn levels_for(n: usize) -> (r: Option<usize>)
    ensures
        match r {
            Some(k) => n == pow2(k as nat),
            None => !is_power_of_two(n as nat),
        },
{
    let mut p: usize = 1;
    let mut k: usize = 0;
    proof {
        lemma2_to64();
    }
    while p < n
        invariant
            p == pow2(k as nat),
            k < p,
            forall|j: nat| j < k ==> pow2(j) < n,
        decreases usize::MAX - p,
    {
        proof {
            lemma_pow2_unfold((k + 1) as nat);
        }
        if p > usize::MAX / 2 {
            proof {
                lemma_between_powers(n as nat, (k + 1) as nat);
            }
            return None;
        }
        p = 2 * p;
        k = k + 1;
    }
    if p == n {
        Some(k)
    } else {
        proof {
            lemma_pow2_pos(k as nat);
            lemma_between_powers(n as nat, k as nat);
        }
        None
    }
}

} // verus!
