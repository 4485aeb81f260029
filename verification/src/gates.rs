//! Gate types, gate instances, and the deterministic gate registry. The
//! registry collects the set of distinct gate types in use, orders it by the
//! stable gate key, and assigns every gate a fixed-length binary selector
//! code; equal-length distinct codes form a prefix-free encoding.

use vstd::prelude::*;
use vstd::arithmetic::power2::pow2;
use crate::util::checked_pow2;

verus! {

/// Machine limit on a gate's declared sizes (constraint degree, constant
/// count, constraint count): 2^30, so that every sum derived from them (a
/// filtered degree, a column count) fits the machine word even with the
/// selector length added, on 32-bit words included.
pub const MAX_GATE_DEGREE: usize = 0x4000_0000;

/// A gate type: a reusable constraint-and-witness template occupying one
/// grid row. Identity is structural; `kind` is the stable identifier that
/// orders the registry.
#[derive(Clone, Copy, PartialEq, Eq, Structural, Debug)]
pub struct GateType {
    pub kind: u64,
    pub num_wires: usize,
    pub num_constants: usize,
    pub num_constraints: usize,
    pub degree: usize,
}

/// The stable ordering of gate types: by kind, then by the remaining fields.
pub open spec fn gate_le(a: GateType, b: GateType) -> bool {
    if a.kind != b.kind {
        a.kind < b.kind
    } else if a.num_wires != b.num_wires {
        a.num_wires < b.num_wires
    } else if a.num_constants != b.num_constants {
        a.num_constants < b.num_constants
    } else if a.num_constraints != b.num_constraints {
        a.num_constraints < b.num_constraints
    } else {
        a.degree <= b.degree
    }
}

impl GateType {
    /// A gate that does nothing; used to pad the instance list.
    pub fn noop() -> (r: GateType)
        ensures
            r == (GateType { kind: 0, num_wires: 0, num_constants: 0, num_constraints: 0, degree: 0 }),
    {
        GateType { kind: 0, num_wires: 0, num_constants: 0, num_constraints: 0, degree: 0 }
    }

    /// A gate emitting `slots` constants, one per routed wire; its constants
    /// may still be rewritten while the builder deduplicates constant values.
    pub fn constant(slots: usize) -> (r: GateType)
        ensures
            r == (GateType { kind: 1, num_wires: slots, num_constants: slots, num_constraints: slots, degree: 1 }),
    {
        GateType { kind: 1, num_wires: slots, num_constants: slots, num_constraints: slots, degree: 1 }
    }

    /// Routes `slots` registered public inputs onto wires.
    pub fn public_input(slots: usize) -> (r: GateType)
        ensures
            r == (GateType { kind: 2, num_wires: slots, num_constants: 0, num_constraints: slots, degree: 1 }),
    {
        GateType { kind: 2, num_wires: slots, num_constants: 0, num_constraints: slots, degree: 1 }
    }

    /// A base-field arithmetic gate evaluating `ops` fused multiply-add
    /// operations; each takes four routed wires.
    pub fn arithmetic(ops: usize) -> (r: GateType)
        requires
            ops <= usize::MAX / 4,
        ensures
            r == (GateType { kind: 3, num_wires: (4 * ops) as usize, num_constants: 2, num_constraints: ops, degree: 3 }),
    {
        GateType { kind: 3, num_wires: (4 * ops) as usize, num_constants: 2, num_constraints: ops, degree: 3 }
    }

    /// An extension-field arithmetic gate evaluating `ops` fused
    /// multiply-add operations; each takes four extension operands of two
    /// wires each.
    pub fn arithmetic_extension(ops: usize) -> (r: GateType)
        requires
            ops <= usize::MAX / 8,
        ensures
            r == (GateType { kind: 4, num_wires: (8 * ops) as usize, num_constants: 2, num_constraints: (2 * ops) as usize, degree: 3 }),
    {
        GateType { kind: 4, num_wires: (8 * ops) as usize, num_constants: 2, num_constraints: (2 * ops) as usize, degree: 3 }
    }

    /// Structural validity against a wire budget: the row has only
    /// `num_wires` columns for this gate, and the declared sizes stay within
    /// the machine limit that keeps every derived sum inside the word.
    pub open spec fn fits(self, num_wires: usize) -> bool {
        &&& self.num_wires <= num_wires
        &&& self.num_constants <= MAX_GATE_DEGREE
        &&& self.num_constraints <= MAX_GATE_DEGREE
        &&& self.degree <= MAX_GATE_DEGREE
    }
}

/// A gate type placed at a concrete row, with its constant parameters.
#[derive(Clone, PartialEq, Eq, Debug)]
pub struct GateInstance {
    pub gate: GateType,
    pub constants: Vec<u64>,
}

/// A gate type with its assigned selector code.
#[derive(Clone, PartialEq, Eq, Debug)]
pub struct PrefixedGate {
    pub gate: GateType,
    pub prefix: Vec<bool>,
}

/// Bit `t` (most significant first) of the `len`-bit code of `i`.
pub open spec fn code_bit(i: nat, len: nat, t: int) -> bool {
    (i / pow2((len - 1 - t) as nat)) % 2 == 1
}

/// The `len`-bit binary code of `i`, most significant bit first.
pub open spec fn code_bits(i: nat, len: nat) -> Seq<bool> {
    Seq::new(len, |t: int| code_bit(i, len, t))
}

/// A sequence is sorted and duplicate-free under the stable gate order.
pub open spec fn strictly_sorted(s: Seq<GateType>) -> bool {
    forall|i: int, j: int| #![trigger s[i], s[j]]
        0 <= i < j < s.len() ==> gate_le(s[i], s[j]) && s[i] != s[j]
}

/// Two strictly sorted sequences with the same members are equal.
pub proof fn lemma_sorted_unique(s1: Seq<GateType>, s2: Seq<GateType>)
    requires
        strictly_sorted(s1),
        strictly_sorted(s2),
        forall|g: GateType| s1.contains(g) <==> s2.contains(g),
    ensures
        s1 =~= s2,
    decreases s1.len(),
{
    if s1.len() == 0 {
        if s2.len() > 0 {
            assert(s1.contains(s2[0]));
        }
    } else if s2.len() == 0 {
        assert(s2.contains(s1[0]));
    } else {
        assert(s2.contains(s1[0]));
        assert(s1.contains(s2[0]));
        let i = choose|i: int| 0 <= i < s2.len() && s2[i] == s1[0];
        let j = choose|j: int| 0 <= j < s1.len() && s1[j] == s2[0];
        assert(s1[0] == s2[0]) by {
            if s1[0] != s2[0] {
                assert(i != 0);
                assert(j != 0);
                assert(gate_le(s2[0], s2[i]) && s2[0] != s2[i]);
                assert(gate_le(s1[0], s1[j]) && s1[0] != s1[j]);
                lemma_gate_le_total(s1[0], s2[0]);
            }
        }
        assert(forall|g: GateType| s1.drop_first().contains(g) <==> s2.drop_first().contains(g)) by {
            assert forall|g: GateType| s1.drop_first().contains(g) implies s2.drop_first().contains(g) by {
                lemma_tail_member(s1, s2, g);
            }
            assert forall|g: GateType| s2.drop_first().contains(g) implies s1.drop_first().contains(g) by {
                lemma_tail_member(s2, s1, g);
            }
        }
        lemma_sorted_tail(s1);
        lemma_sorted_tail(s2);
        lemma_sorted_unique(s1.drop_first(), s2.drop_first());
        assert forall|k: int| 0 <= k < s1.len() implies s1[k] == s2[k] by {
            if k > 0 {
                assert(s1[k] == s1.drop_first()[k - 1]);
                assert(s2[k] == s2.drop_first()[k - 1]);
            }
        }
    }
}

/// The tail of a strictly sorted sequence is strictly sorted.
proof fn lemma_sorted_tail(s: Seq<GateType>)
    requires
        strictly_sorted(s),
        s.len() > 0,
    ensures
        strictly_sorted(s.drop_first()),
{
    assert forall|t: int, u: int| 0 <= t < u < s.drop_first().len()
        implies gate_le(#[trigger] s.drop_first()[t], #[trigger] s.drop_first()[u])
            && s.drop_first()[t] != s.drop_first()[u] by {
        assert(s.drop_first()[t] == s[t + 1]);
        assert(s.drop_first()[u] == s[u + 1]);
        assert(gate_le(s[t + 1], s[u + 1]) && s[t + 1] != s[u + 1]);
    }
}

proof fn lemma_tail_member(s1: Seq<GateType>, s2: Seq<GateType>, g: GateType)
    requires
        strictly_sorted(s1),
        strictly_sorted(s2),
        s1.len() > 0,
        s2.len() > 0,
        s1[0] == s2[0],
        forall|x: GateType| s1.contains(x) <==> s2.contains(x),
        s1.drop_first().contains(g),
    ensures
        s2.drop_first().contains(g),
{
    let k = choose|k: int| 0 <= k < s1.drop_first().len() && s1.drop_first()[k] == g;
    assert(s1[k + 1] == g);
    assert(s1.contains(g));
    let m = choose|m: int| 0 <= m < s2.len() && s2[m] == g;
    assert(g != s1[0]);
    assert(m != 0);
    assert(s2.drop_first()[m - 1] == g);
}

/// The distinct gate types among `types`, sorted by the stable gate order.
/// The result is the unique strictly sorted enumeration of the set of gate
/// types in use, so it does not depend on anything but that set.
pub fn sorted_gate_registry(types: &Vec<GateType>) -> (r: Vec<GateType>)
    ensures
        strictly_sorted(r@),
        forall|g: GateType| r@.contains(g) <==> types@.contains(g),
        types@.len() > 0 ==> r@.len() > 0,
        r@.len() <= types@.len(),
{
    let mut out: Vec<GateType> = Vec::new();
    let mut i: usize = 0;
    while i < types.len()
        invariant
            i <= types@.len(),
            strictly_sorted(out@),
            forall|g: GateType| out@.contains(g)
                <==> (exists|k: int| 0 <= k < i && #[trigger] types@[k] == g),
            out@.len() <= i,
        decreases types@.len() - i,
    {
        let g = types[i];
        let ghost old_out = out@;
        // Find the insertion point for `g`.
        let mut pos: usize = 0;
        while pos < out.len() && gate_strictly_before(out[pos], g)
            invariant
                pos <= out@.len(),
                out@ == old_out,
                forall|t: int| 0 <= t < pos ==> gate_le(out@[t], g) && out@[t] != g,
            decreases out@.len() - pos,
        {
            pos = pos + 1;
        }
        if pos < out.len() && out[pos] == g {
            // Already registered.
            proof {
                assert(out@[pos as int] == g);
                assert(out@.contains(g));
                assert(types@[i as int] == g);
            }
        } else {
            let moved = insert_at(&out, pos, g);
            out = moved;
            proof {
                old_out.insert_ensures(pos as int, g);
                let ins = old_out.insert(pos as int, g);
                assert(out@ == ins);
                assert(forall|t: int| 0 <= t < pos ==> #[trigger] ins[t] == old_out[t]);
                assert(ins[pos as int] == g);
                assert forall|u: int| pos < u < ins.len() implies #[trigger] ins[u] == old_out[u - 1] by {
                    assert(ins[(u - 1) + 1] == old_out[u - 1]);
                }
                if pos < old_out.len() {
                    assert(!(gate_le(old_out[pos as int], g) && old_out[pos as int] != g));
                    lemma_gate_le_total(old_out[pos as int], g);
                    assert(gate_le(g, old_out[pos as int]));
                }
                assert forall|t: int, u: int| 0 <= t < u < out@.len()
                    implies gate_le(out@[t], out@[u]) && out@[t] != out@[u] by {
                    if t == pos && u > pos {
                        assert(out@[u] == old_out[u - 1]);
                        if pos < u - 1 {
                            assert(gate_le(old_out[pos as int], old_out[u - 1])
                                && old_out[pos as int] != old_out[u - 1]);
                        }
                    } else if t < pos && u == pos {
                        assert(out@[t] == old_out[t]);
                    } else if t < pos && u > pos {
                        assert(out@[t] == old_out[t] && out@[u] == old_out[u - 1]);
                        if t < u - 1 {
                        } else {
                            assert(t == pos);
                        }
                    } else if u < pos {
                        assert(out@[t] == old_out[t] && out@[u] == old_out[u]);
                    } else if t > pos {
                        assert(out@[t] == old_out[t - 1] && out@[u] == old_out[u - 1]);
                    }
                }
                assert forall|x: GateType| out@.contains(x)
                    implies (exists|k: int| 0 <= k < i + 1 && #[trigger] types@[k] == x) by {
                    let idx = choose|idx: int| 0 <= idx < out@.len() && out@[idx] == x;
                    if idx == pos {
                        assert(types@[i as int] == x);
                    } else if idx < pos {
                        assert(old_out[idx] == x);
                        assert(old_out.contains(x));
                    } else {
                        assert(old_out[idx - 1] == x);
                        assert(old_out.contains(x));
                    }
                }
                assert forall|k: int| 0 <= k < i + 1
                    implies out@.contains(#[trigger] types@[k]) by {
                    if k == i {
                        assert(out@[pos as int] == g);
                    } else {
                        assert(old_out.contains(types@[k]));
                        let idx = choose|idx: int| 0 <= idx < old_out.len()
                            && old_out[idx] == types@[k];
                        if idx < pos {
                            assert(out@[idx] == types@[k]);
                        } else {
                            assert(out@[idx + 1] == types@[k]);
                        }
                    }
                }
            }
        }
        i = i + 1;
    }
    proof {
        if types@.len() > 0 {
            assert(types@.contains(types@[0]));
            assert(out@.contains(types@[0]));
        }
    }
    out
}

/// Whether `c` strictly precedes `g` in the stable gate order.
fn gate_strictly_before(c: GateType, g: GateType) -> (r: bool)
    ensures
        r == (gate_le(c, g) && c != g),
{
    c.kind < g.kind
        || (c.kind == g.kind && c.num_wires < g.num_wires)
        || (c.kind == g.kind && c.num_wires == g.num_wires && c.num_constants < g.num_constants)
        || (c.kind == g.kind && c.num_wires == g.num_wires && c.num_constants == g.num_constants
            && c.num_constraints < g.num_constraints)
        || (c.kind == g.kind && c.num_wires == g.num_wires && c.num_constants == g.num_constants
            && c.num_constraints == g.num_constraints && c.degree < g.degree)
}

/// A copy of `v` with `g` inserted at position `pos`.
fn insert_at(v: &Vec<GateType>, pos: usize, g: GateType) -> (r: Vec<GateType>)
    requires
        pos <= v@.len(),
    ensures
        r@ == v@.insert(pos as int, g),
{
    let mut out: Vec<GateType> = Vec::new();
    let mut t: usize = 0;
    while t < pos
        invariant
            t <= pos,
            pos <= v@.len(),
            out@.len() == t,
            forall|u: int| 0 <= u < t ==> out@[u] == v@[u],
        decreases pos - t,
    {
        out.push(v[t]);
        t = t + 1;
    }
    out.push(g);
    let mut u: usize = pos;
    while u < v.len()
        invariant
            pos <= u <= v@.len(),
            out@.len() == u + 1,
            forall|w: int| 0 <= w < pos ==> out@[w] == v@[w],
            out@[pos as int] == g,
            forall|w: int| pos < w <= u ==> out@[w] == v@[w - 1],
        decreases v@.len() - u,
    {
        out.push(v[u]);
        u = u + 1;
    }
    proof {
        v@.insert_ensures(pos as int, g);
        let ins = v@.insert(pos as int, g);
        assert forall|w: int| 0 <= w < out@.len() implies out@[w] == ins[w] by {
            if w > pos {
                assert(ins[(w - 1) + 1] == v@[w - 1]);
            }
        }
        assert(out@ =~= ins);
    }
    out
}

/// The stable order is total: of two distinct gates, one strictly precedes the
/// other.
pub proof fn lemma_gate_le_total(a: GateType, b: GateType)
    ensures
        gate_le(a, b) || gate_le(b, a),
        !(gate_le(a, b) && gate_le(b, a)) || a == b,
{
}

/// The selector code length for a registry of `m` gates.
pub fn selector_code_len(m: usize) -> (r: usize)
    ensures
        m <= 1 ==> r == 0,
        m >= 2 ==> r >= 1 && pow2((r - 1) as nat) < m as nat && m as nat <= pow2(r as nat),
{
    plonky2_util::log2_ceil(m)
}

/// The `len`-bit code of `i`, most significant bit first.
pub fn gate_prefix(i: usize, len: usize) -> (r: Vec<bool>)
    ensures
        r@ =~= code_bits(i as nat, len as nat),
{
    let mut out: Vec<bool> = Vec::new();
    let mut t: usize = 0;
    while t < len
        invariant
            t <= len,
            out@.len() == t,
            forall|u: int| 0 <= u < t ==> out@[u] == code_bit(i as nat, len as nat, u),
        decreases len - t,
    {
        let e = len - 1 - t;
        let d = checked_pow2(e);
        proof {
            vstd::arithmetic::power2::lemma_pow2_pos(e as nat);
        }
        let bit = match d {
            Some(p) => (i / p) % 2 == 1,
            None => false,
        };
        proof {
            if d is None {
                // A weight beyond the machine word makes the bit zero.
                assert((i as int) / (pow2(e as nat) as int) == 0) by (nonlinear_arith)
                    requires 0 <= (i as int) && (i as int) < (pow2(e as nat) as int);
            }
        }
        out.push(bit);
        t = t + 1;
    }
    out
}

/// Distinct indices below 2^len get distinct `len`-bit codes, so the
/// equal-length selector codes of a registry are prefix-free.
pub proof fn lemma_code_injective(i: nat, j: nat, len: nat)
    requires
        i < pow2(len),
        j < pow2(len),
        code_bits(i, len) =~= code_bits(j, len),
    ensures
        i == j,
    decreases len,
{
    if len == 0 {
        assert(pow2(0) == 1) by {
            vstd::arithmetic::power2::lemma2_to64();
        }
    } else {
        let h = pow2((len - 1) as nat);
        vstd::arithmetic::power2::lemma_pow2_pos((len - 1) as nat);
        vstd::arithmetic::power2::lemma_pow2_unfold(len);
        // The leading bit is the quotient by 2^(len-1).
        assert(code_bits(i, len)[0] == ((i / h) % 2 == 1));
        assert(code_bits(j, len)[0] == ((j / h) % 2 == 1));
        lemma_div_below_two(i, h);
        lemma_div_below_two(j, h);
        let bi = i / h;
        let bj = j / h;
        assert(bi == bj) by {
            if bi == 0 && bj == 1 {
                assert(code_bits(i, len)[0] == false);
                assert(code_bits(j, len)[0] == true);
            }
            if bi == 1 && bj == 0 {
                assert(code_bits(i, len)[0] == true);
                assert(code_bits(j, len)[0] == false);
            }
        }
        let i2 = i % h;
        let j2 = j % h;
        vstd::arithmetic::div_mod::lemma_fundamental_div_mod(i as int, h as int);
        vstd::arithmetic::div_mod::lemma_fundamental_div_mod(j as int, h as int);
        vstd::arithmetic::div_mod::lemma_mod_bound(i as int, h as int);
        vstd::arithmetic::div_mod::lemma_mod_bound(j as int, h as int);
        assert(code_bits(i2, (len - 1) as nat) =~= code_bits(j2, (len - 1) as nat)) by {
            assert forall|t: int| 0 <= t < len - 1
                implies #[trigger] code_bits(i2, (len - 1) as nat)[t]
                    == code_bits(j2, (len - 1) as nat)[t] by {
                lemma_low_bits_agree(i, len, t);
                lemma_low_bits_agree(j, len, t);
                assert(code_bits(i, len)[t + 1] == code_bits(j, len)[t + 1]);
            }
        }
        lemma_code_injective(i2, j2, (len - 1) as nat);
    }
}

/// Dividing by 2^(len-1) a value below 2^len gives zero or one.
proof fn lemma_div_below_two(i: nat, h: nat)
    requires
        h > 0,
        i < 2 * h,
    ensures
        i / h == 0 || i / h == 1,
        (i / h) % 2 == i / h,
{
    assert(i / h == 0 || i / h == 1) by (nonlinear_arith)
        requires h > 0 && i < 2 * h && i >= 0;
}

/// Bit `t+1` of the `len`-bit code of `i` equals bit `t` of the
/// `(len-1)`-bit code of `i % 2^(len-1)`.
proof fn lemma_low_bits_agree(i: nat, len: nat, t: int)
    requires
        len >= 1,
        0 <= t < len - 1,
    ensures
        code_bit(i, len, t + 1) == code_bit(i % pow2((len - 1) as nat), (len - 1) as nat, t),
{
    let h = pow2((len - 1) as nat) as int;
    let e = pow2((len - 2 - t) as nat) as int;
    let f = pow2((t + 1) as nat) as int;
    let x = i as int;
    vstd::arithmetic::power2::lemma_pow2_pos((len - 1) as nat);
    vstd::arithmetic::power2::lemma_pow2_pos((len - 2 - t) as nat);
    vstd::arithmetic::power2::lemma_pow2_pos((t + 1) as nat);
    assert(len - 1 - (t + 1) == len - 2 - t);
    // h = e * f, so the slice of i % h at weight e is the slice of i there.
    vstd::arithmetic::power2::lemma_pow2_adds((len - 2 - t) as nat, (t + 1) as nat);
    assert(h == e * f);
    vstd::arithmetic::div_mod::lemma_mod_breakdown(x, e, f);
    assert(x % h == e * ((x / e) % f) + x % e);
    vstd::arithmetic::div_mod::lemma_mod_bound(x, e);
    vstd::arithmetic::div_mod::lemma_fundamental_div_mod_converse(
        x % h, e, (x / e) % f, x % e);
    assert((x % h) / e == (x / e) % f);
    lemma_mod_pow2_mod2((x / e) as nat, (t + 1) as nat);
    assert(((x / e) % f) % 2 == (x / e) % 2);
}

/// `(x % 2^(k)) % 2 == x % 2` for `k >= 1`.
proof fn lemma_mod_pow2_mod2(x: nat, k: nat)
    requires
        k >= 1,
    ensures
        (x % pow2(k)) % 2 == x % 2,
{
    vstd::arithmetic::power2::lemma_pow2_adds(1, (k - 1) as nat);
    assert(pow2(1) == 2) by {
        vstd::arithmetic::power2::lemma2_to64();
    }
    vstd::arithmetic::power2::lemma_pow2_pos((k - 1) as nat);
    vstd::arithmetic::div_mod::lemma_mod_mod(x as int, 2, pow2((k - 1) as nat) as int);
}

} // verus!
