//! The Goldilocks field as this compiler uses it: canonical `u64` values
//! below the field order, with multiplication modelled as integer arithmetic
//! modulo the order. The evaluation subgroups and the per-column coset shifts
//! are the corresponding power sequences of the two fixed generators.

use vstd::prelude::*;

verus! {

/// The order of the Goldilocks field, 2^64 - 2^32 + 1.
pub const GOLDILOCKS_ORDER: u64 = 0xFFFF_FFFF_0000_0001;

/// A generator of the full multiplicative group of the Goldilocks field.
pub const MULTIPLICATIVE_GROUP_GENERATOR: u64 = 14293326489335486720;

/// A generator of the maximal two-adic multiplicative subgroup, of order
/// 2^32.
pub const POWER_OF_TWO_GENERATOR: u64 = 7277203076849721926;

/// The two-adicity of the Goldilocks field: its multiplicative group has a
/// cyclic subgroup of order 2^32 and of no larger power of two.
pub const TWO_ADICITY: usize = 32;

/// The bit length of the order of the degree-two field extension in which
/// FRI queries are answered: the square of the Goldilocks order lies between
/// 2^127 and 2^128.
pub const EXTENSION_FIELD_BITS: usize = 128;

/// A value is a canonical field element when it lies below the order.
pub open spec fn is_canonical(a: u64) -> bool {
    a < GOLDILOCKS_ORDER
}

/// The product of two field values, reduced to canonical form.
pub open spec fn f_mul(a: u64, b: u64) -> u64 {
    (((a as int) * (b as int)) % (GOLDILOCKS_ORDER as int)) as u64
}

/// `base^e` in the field.
pub open spec fn pow_mod(base: u64, e: nat) -> u64
    decreases e,
{
    if e == 0 {
        1u64
    } else {
        f_mul(base, pow_mod(base, (e - 1) as nat))
    }
}

/// `base^(2^k)` in the field, written as `k` successive squarings.
pub open spec fn square_iter(base: u64, k: nat) -> u64
    decreases k,
{
    if k == 0 {
        base
    } else {
        square_iter(f_mul(base, base), (k - 1) as nat)
    }
}

/// The generator of the order-2^bits evaluation subgroup: the
/// 2^(32-bits)-th power of the maximal two-adic generator.
pub open spec fn subgroup_generator(bits: nat) -> u64 {
    if bits <= 32 {
        square_iter(POWER_OF_TWO_GENERATOR, (32 - bits) as nat)
    } else {
        0u64
    }
}

/// The element at position `j` of the evaluation subgroup of size 2^bits.
pub open spec fn subgroup_element(bits: nat, j: nat) -> u64 {
    pow_mod(subgroup_generator(bits), j)
}

/// The coset shift assigned to routed column `i`: the `i`-th power of the
/// multiplicative group generator.
pub open spec fn coset_shift(i: nat) -> u64 {
    pow_mod(MULTIPLICATIVE_GROUP_GENERATOR, i)
}

pub proof fn lemma_f_mul_bound(a: u64, b: u64)
    ensures
        f_mul(a, b) < GOLDILOCKS_ORDER,
{
    let p = GOLDILOCKS_ORDER as int;
    let x = (a as int) * (b as int);
    assert(0 <= x % p < p) by (nonlinear_arith)
        requires p > 0 && x >= 0;
}

pub proof fn lemma_pow_mod_bound(base: u64, e: nat)
    ensures
        e > 0 ==> pow_mod(base, e) < GOLDILOCKS_ORDER,
        pow_mod(base, e) <= GOLDILOCKS_ORDER,
{
    if e > 0 {
        lemma_f_mul_bound(base, pow_mod(base, (e - 1) as nat));
    }
}

/// Multiplying a canonical value by one returns it unchanged.
pub proof fn lemma_f_mul_one(a: u64)
    requires
        is_canonical(a),
    ensures
        f_mul(a, 1) == a,
{
    let p = GOLDILOCKS_ORDER as int;
    assert((a as int) % p == a as int) by (nonlinear_arith)
        requires 0 <= (a as int) && (a as int) < p;
}

/// The field product, computed through 128-bit integer arithmetic.
pub fn mul_f(a: u64, b: u64) -> (r: u64)
    ensures
        r == f_mul(a, b),
        r < GOLDILOCKS_ORDER,
{
    proof {
        lemma_f_mul_bound(a, b);
        assert((a as int) * (b as int) <= (u64::MAX as int) * (u64::MAX as int))
            by (nonlinear_arith)
            requires 0 <= (a as int) && (a as int) <= (u64::MAX as int) && 0 <= (b as int)
                && (b as int) <= (u64::MAX as int);
    }
    let wide = (a as u128) * (b as u128);
    let reduced = wide % (GOLDILOCKS_ORDER as u128);
    reduced as u64
}

/// `base^(2^k)`, by `k` squarings.
pub fn square_iter_f(base: u64, k: usize) -> (r: u64)
    ensures
        r == square_iter(base, k as nat),
{
    let mut acc = base;
    let mut i: usize = 0;
    while i < k
        invariant
            i <= k,
            square_iter(acc, (k - i) as nat) == square_iter(base, k as nat),
        decreases k - i,
    {
        acc = mul_f(acc, acc);
        i = i + 1;
    }
    acc
}

/// The first `count` powers of `base`, starting from one.
pub fn power_sequence(base: u64, count: usize) -> (r: Vec<u64>)
    ensures
        r@.len() == count,
        forall|j: int| 0 <= j < count ==> r@[j] == pow_mod(base, j as nat),
{
    let mut out: Vec<u64> = Vec::new();
    let mut cur: u64 = 1;
    let mut j: usize = 0;
    while j < count
        invariant
            j <= count,
            out@.len() == j,
            cur == pow_mod(base, j as nat),
            forall|t: int| 0 <= t < j ==> out@[t] == pow_mod(base, t as nat),
        decreases count - j,
    {
        out.push(cur);
        cur = mul_f(base, cur);
        j = j + 1;
    }
    out
}

/// The multiplicative subgroup of order 2^bits: the powers of its generator.
pub fn two_adic_subgroup_u64(bits: usize, size: usize) -> (r: Vec<u64>)
    requires
        bits <= TWO_ADICITY,
        size as nat == vstd::arithmetic::power2::pow2(bits as nat),
    ensures
        r@.len() == size,
        forall|j: int| 0 <= j < size ==> r@[j] == subgroup_element(bits as nat, j as nat),
{
    let root = square_iter_f(POWER_OF_TWO_GENERATOR, TWO_ADICITY - bits);
    power_sequence(root, size)
}

/// One coset shift per routed column: the first `num_shifts` powers of the
/// multiplicative group generator.
pub fn coset_shifts_u64(num_shifts: usize) -> (r: Vec<u64>)
    ensures
        r@.len() == num_shifts,
        forall|i: int| 0 <= i < num_shifts ==> r@[i] == coset_shift(i as nat),
{
    power_sequence(MULTIPLICATIVE_GROUP_GENERATOR, num_shifts)
}

/// Row `lg_m` of the FFT root table for a domain of 2^lg_n points: the
/// powers of the subgroup generator squared down to order 2^lg_m, at least
/// two of them.
pub open spec fn fft_row(lg_n: nat, lg_m: nat) -> Seq<u64> {
    let base = square_iter(subgroup_generator(lg_n), (lg_n - lg_m) as nat);
    let len: nat = if lg_m >= 2 {
        vstd::arithmetic::power2::pow2((lg_m - 1) as nat)
    } else {
        2
    };
    Seq::new(len, |j: int| pow_mod(base, j as nat))
}

/// The FFT root table for a domain of 2^lg_n points: one row per level.
pub open spec fn fft_roots_of(lg_n: nat) -> Seq<Seq<u64>> {
    Seq::new(lg_n, |i: int| fft_row(lg_n, (i + 1) as nat))
}

/// Precomputes the FFT root table shared by every later low-degree
/// extension; `None` when a row would not fit in the machine word.
pub fn fft_root_table_bits(lg_n: usize) -> (r: Option<Vec<Vec<u64>>>)
    requires
        lg_n <= TWO_ADICITY,
    ensures
        match r {
            Some(t) => {
                &&& t@.len() == lg_n
                &&& forall|i: int| #![trigger t@[i]]
                    0 <= i < lg_n ==> t@[i]@ == fft_roots_of(lg_n as nat)[i]
            },
            None => exists|k: nat| k < lg_n
                && vstd::arithmetic::power2::pow2(k) > usize::MAX,
        },
{
    let root = square_iter_f(POWER_OF_TWO_GENERATOR, TWO_ADICITY - lg_n);
    let mut table: Vec<Vec<u64>> = Vec::new();
    let mut lg_m: usize = 1;
    while lg_m <= lg_n
        invariant
            1 <= lg_m,
            lg_m <= lg_n + 1,
            lg_n <= TWO_ADICITY,
            root == subgroup_generator(lg_n as nat),
            table@.len() == lg_m - 1,
            forall|i: int| #![trigger table@[i]]
                0 <= i < lg_m - 1 ==> table@[i]@ == fft_roots_of(lg_n as nat)[i],
        decreases lg_n + 1 - lg_m,
    {
        let base = square_iter_f(root, lg_n - lg_m);
        let half: usize = if lg_m >= 2 {
            match crate::util::checked_pow2(lg_m - 1) {
                Some(h) => h,
                None => {
                    return None;
                },
            }
        } else {
            2
        };
        let rowv = power_sequence(base, half);
        proof {
            assert(rowv@ =~= fft_row(lg_n as nat, lg_m as nat));
            assert(fft_roots_of(lg_n as nat)[lg_m - 1] == fft_row(lg_n as nat, lg_m as nat));
        }
        table.push(rowv);
        lg_m = lg_m + 1;
    }
    Some(table)
}

} // verus!
