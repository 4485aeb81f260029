//! The deterministic digest used to fingerprint a compiled circuit and to
//! cap the committed polynomial batch: an iterated multiply-and-add fold over
//! field values. It binds a value sequence deterministically; cryptographic
//! strength is not modelled here.

use vstd::prelude::*;
use crate::field::{f_mul, GOLDILOCKS_ORDER, mul_f};

verus! {

/// The multiplier folded in at every step.
pub const DIGEST_ALPHA: u64 = 1099511628211;

/// The initial state shared by every digest lane.
pub const DIGEST_INIT: u64 = 0x9E37_79B9_7F4A_7C15;

/// The sum of two field values, reduced to canonical form.
pub open spec fn f_add(a: u64, b: u64) -> u64 {
    (((a as int) + (b as int)) % (GOLDILOCKS_ORDER as int)) as u64
}

/// One digest step: scale the state and absorb one value.
pub open spec fn mix(h: u64, x: u64) -> u64 {
    f_add(f_mul(h, DIGEST_ALPHA), x)
}

/// The digest of a value sequence from initial state `h`.
pub open spec fn digest_fold(h: u64, s: Seq<u64>) -> u64
    decreases s.len(),
{
    if s.len() == 0 {
        h
    } else {
        digest_fold(mix(h, s[0]), s.drop_first())
    }
}

/// A four-lane digest, as four field elements.
#[derive(Clone, Copy, PartialEq, Eq, Structural, Debug)]
pub struct HashOut {
    pub e0: u64,
    pub e1: u64,
    pub e2: u64,
    pub e3: u64,
}

/// The lane `l` digest of `s` under seed `seed`: the fold starts from the
/// shared initial state with `4 * seed + l` absorbed first.
pub open spec fn lane_digest(seed: nat, l: nat, s: Seq<u64>) -> u64 {
    digest_fold(mix(DIGEST_INIT, (4 * seed + l) as u64), s)
}

/// The four-lane digest of `s` under `seed`.
pub open spec fn hash_out_of(seed: nat, s: Seq<u64>) -> HashOut {
    HashOut {
        e0: lane_digest(seed, 0, s),
        e1: lane_digest(seed, 1, s),
        e2: lane_digest(seed, 2, s),
        e3: lane_digest(seed, 3, s),
    }
}

pub fn add_f(a: u64, b: u64) -> (r: u64)
    ensures
        r == f_add(a, b),
        r < GOLDILOCKS_ORDER,
{
    proof {
        let p = GOLDILOCKS_ORDER as int;
        assert(0 <= ((a as int) + (b as int)) % p < p) by (nonlinear_arith)
            requires p > 0 && (a as int) + (b as int) >= 0;
    }
    let wide = (a as u128) + (b as u128);
    let reduced = wide % (GOLDILOCKS_ORDER as u128);
    reduced as u64
}

/// One digest step.
pub fn mix_f(h: u64, x: u64) -> (r: u64)
    ensures
        r == mix(h, x),
        r < GOLDILOCKS_ORDER,
{
    let scaled = mul_f(h, DIGEST_ALPHA);
    add_f(scaled, x)
}

/// The digest of `values` from initial state `h0`.
pub fn digest_values(h0: u64, values: &Vec<u64>) -> (r: u64)
    ensures
        r == digest_fold(h0, values@),
{
    proof {
        assert(values@.skip(0) =~= values@);
    }
    let mut h = h0;
    let mut i: usize = 0;
    let n = values.len();
    while i < n
        invariant
            i <= n,
            n == values@.len(),
            digest_fold(h, values@.skip(i as int)) == digest_fold(h0, values@),
        decreases n - i,
    {
        proof {
            let sk = values@.skip(i as int);
            assert(sk[0] == values@[i as int]);
            assert(sk.drop_first() =~= values@.skip(i as int + 1));
        }
        h = mix_f(h, values[i]);
        i = i + 1;
    }
    proof {
        assert(values@.skip(n as int) =~= Seq::<u64>::empty());
    }
    h
}

/// The four-lane digest of `values` under `seed`.
pub fn hash_values(seed: usize, values: &Vec<u64>) -> (r: HashOut)
    requires
        seed <= 0xFFFF_FFFFusize,
    ensures
        r == hash_out_of(seed as nat, values@),
{
    let base = 4 * (seed as u64);
    let h0 = mix_f(DIGEST_INIT, base);
    let h1 = mix_f(DIGEST_INIT, base + 1);
    let h2 = mix_f(DIGEST_INIT, base + 2);
    let h3 = mix_f(DIGEST_INIT, base + 3);
    HashOut {
        e0: digest_values(h0, values),
        e1: digest_values(h1, values),
        e2: digest_values(h2, values),
        e3: digest_values(h3, values),
    }
}

} // verus!
