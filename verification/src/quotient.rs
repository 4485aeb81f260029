//! Quotient-degree-factor selection: a discrete search over a small bounded
//! range for the factor that minimizes the prover cost, counted as partial
//! products plus the factor itself. Ties go to the smallest factor.

use vstd::prelude::*;

verus! {

/// The number of partial products needed to accumulate `n` factors when each
/// accumulation step may multiply at most `q` of them: one per full chunk
/// beyond the first.
pub open spec fn num_partial_products_spec(n: nat, q: nat) -> int {
    (n - 1) / (q as int)
}

/// The prover cost of quotient-degree factor `q` for `n` routed wires.
pub open spec fn qdf_cost(n: nat, q: nat) -> int {
    num_partial_products_spec(n, q) + q
}

/// The number of partial products for `n` factors at degree bound `q`.
pub fn num_partial_products(n: usize, q: usize) -> (r: usize)
    requires
        1 <= n,
        1 <= q,
    ensures
        r as int == num_partial_products_spec(n as nat, q as nat),
        r <= n - 1,
{
    proof {
        assert(((n - 1) as int) / (q as int) <= (n - 1) as int) by (nonlinear_arith)
            requires 1 <= (q as int) && 0 <= (n - 1) as int;
    }
    (n - 1) / q
}

/// The cost minimized by the search.
pub fn quotient_cost(n: usize, q: usize) -> (r: u64)
    requires
        1 <= n <= 0xFFFF_FFFFusize,
        1 <= q <= 0xFFFF_FFFFusize,
    ensures
        r as int == qdf_cost(n as nat, q as nat),
{
    (num_partial_products(n, q) as u64) + (q as u64)
}

/// The first factor in `[lo, hi]` that minimizes the cost: the result is in
/// range, no factor in range costs less, and every smaller factor in range
/// costs strictly more. These three clauses determine the result uniquely.
pub fn select_quotient_degree_factor(n: usize, lo: usize, hi: usize) -> (r: usize)
    requires
        1 <= n <= 0xFFFF_FFFFusize,
        1 <= lo <= hi,
        hi <= 0xFFFF_FFFFusize,
    ensures
        lo <= r <= hi,
        forall|q: nat| lo <= q <= hi ==> qdf_cost(n as nat, r as nat) <= qdf_cost(n as nat, q),
        forall|q: nat| lo <= q < r ==> qdf_cost(n as nat, q) > qdf_cost(n as nat, r as nat),
{
    let mut best = lo;
    let mut best_cost = quotient_cost(n, lo);
    let mut q = lo;
    while q < hi
        invariant
            1 <= n <= 0xFFFF_FFFFusize,
            1 <= lo <= best <= q <= hi,
            hi <= 0xFFFF_FFFFusize,
            best_cost as int == qdf_cost(n as nat, best as nat),
            forall|t: nat| lo <= t <= q ==> best_cost as int <= qdf_cost(n as nat, t),
            forall|t: nat| lo <= t < best ==> qdf_cost(n as nat, t) > best_cost as int,
        decreases hi - q,
    {
        q = q + 1;
        let c = quotient_cost(n, q);
        if c < best_cost {
            best = q;
            best_cost = c;
        }
    }
    best
}

} // verus!
