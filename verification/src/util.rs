//! Small integer helpers shared across the compiler: powers of two and the
//! two logarithm routines taken from `plonky2_util`.

use vstd::prelude::*;
use vstd::arithmetic::power2::{pow2, lemma_pow2_strictly_increases};

verus! {

/// Whether `n` is a power of two.
pub open spec fn is_pow2(n: nat) -> bool
    decreases n,
{
    if n == 0 {
        false
    } else if n == 1 {
        true
    } else {
        n % 2 == 0 && is_pow2(n / 2)
    }
}

pub proof fn lemma_pow2_is_pow2(k: nat)
    ensures
        is_pow2(pow2(k)),
    decreases k,
{
    vstd::arithmetic::power2::lemma_pow2_pos(k);
    if k == 0 {
        vstd::arithmetic::power2::lemma2_to64();
    } else {
        lemma_pow2_is_pow2((k - 1) as nat);
        vstd::arithmetic::power2::lemma_pow2_unfold(k);
    }
}

/// 2^k as a `usize`, or `None` when it does not fit.
pub fn checked_pow2(k: usize) -> (r: Option<usize>)
    ensures
        match r {
            Some(v) => v == pow2(k as nat),
            None => pow2(k as nat) > usize::MAX,
        },
{
    let mut p: usize = 1;
    let mut i: usize = 0;
    proof { vstd::arithmetic::power2::lemma2_to64(); }
    while i < k
        invariant
            i <= k,
            p == pow2(i as nat),
            p >= 1,
        decreases k - i,
    {
        if p > usize::MAX / 2 {
            proof {
                vstd::arithmetic::power2::lemma_pow2_unfold((i + 1) as nat);
                if ((i + 1) as nat) < (k as nat) {
                    lemma_pow2_strictly_increases((i + 1) as nat, k as nat);
                }
            }
            return None;
        }
        p = p * 2;
        i = i + 1;
        proof {
            vstd::arithmetic::power2::lemma_pow2_unfold(i as nat);
        }
    }
    Some(p)
}

/// The exponent of a power of two, from `plonky2_util`.
///
/// Relies on `plonky2_util::log2_strict`: for a power of two it returns the
/// exponent (the count of trailing zeros), and it panics on any other input,
/// which the precondition rules out.
pub assume_specification [ plonky2_util::log2_strict ] (n: usize) -> (r: usize)
    requires
        is_pow2(n as nat),
    ensures
        n as nat == pow2(r as nat),
;

/// The ceiling of the base-two logarithm, from `plonky2_util`.
///
/// Relies on `plonky2_util::log2_ceil`: it computes `ceil(log_2(n))` as the
/// bit length of `n - 1` (zero for `n <= 1`), so for `n >= 2` the result is
/// the least exponent whose power of two reaches `n`.
pub assume_specification [ plonky2_util::log2_ceil ] (n: usize) -> (r: usize)
    ensures
        n <= 1 ==> r == 0,
        n >= 2 ==> r >= 1 && pow2((r - 1) as nat) < n as nat && n as nat <= pow2(r as nat),
;

} // verus!
