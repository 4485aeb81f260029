//! The circuit builder: the mutable description a caller accumulates —
//! targets, gates, operations, constants, copy constraints, generators — and
//! the one-shot compilation that consumes it and produces the prover,
//! verifier and common circuit data.

use vstd::prelude::*;
use crate::config::{CircuitConfig, CircuitError};
use crate::field::{
    coset_shift, coset_shifts_u64, fft_root_table_bits, is_canonical, subgroup_element,
    two_adic_subgroup_u64, GOLDILOCKS_ORDER,
};
use crate::forest::{merge_seq, root_of, Forest};
use crate::fri::{fri_params_for, FriParams};
use crate::gates::{
    code_bits, gate_prefix, selector_code_len, sorted_gate_registry, strictly_sorted, GateInstance,
    GateType, PrefixedGate,
};
use crate::hashing::{hash_out_of, hash_values, HashOut};
use crate::permutation::{all_cosets_disjoint, coset_products, sigma_polys, sigma_value};
use crate::quotient::{num_partial_products, qdf_cost, select_quotient_degree_factor};
use crate::target::{
    BoolTarget, CopyConstraint, ExtensionTarget, ExtensionValue, Generator, HashOutTarget, Level,
    Markable, MarkedTargets, MerkleCapTarget, Target, U32Target, Wire,
};
use crate::circuit_data::{
    CircuitData, CommonCircuitData, ProverCircuitData, ProverOnlyCircuitData,
    VerifierCircuitData, VerifierOnlyCircuitData,
};
use vstd::arithmetic::power2::pow2;

verus! {

/// A deduplicated computation request: a gate type, its constant parameters,
/// and the targets to be routed onto the row's leading wires. Two equal
/// operations describe the same computation and share one row.
pub struct Operation {
    pub gate: GateType,
    pub constants: Vec<u64>,
    pub targets: Vec<Target>,
}

/// Structural equality of operations.
pub open spec fn op_eqv(a: Operation, b: Operation) -> bool {
    a.gate == b.gate && a.constants@ == b.constants@ && a.targets@ == b.targets@
}

pub open spec fn ops_contain(s: Seq<Operation>, op: Operation) -> bool {
    exists|k: int| 0 <= k < s.len() && op_eqv(#[trigger] s[k], op)
}

/// A named diagnostic scope: entry records the operation count at entry, and
/// closing a scope records the count at exit. Purely a side channel; it never
/// affects compiled output.
pub struct ContextTree {
    pub open_scopes: Vec<(String, Level, usize)>,
    pub closed_scopes: Vec<(String, usize, usize)>,
}

/// The value cached for `v`, scanning the constant cache front to back.
pub open spec fn cached_target(s: Seq<(u64, Target)>, v: u64) -> Option<Target>
    decreases s.len(),
{
    if s.len() == 0 {
        None
    } else if s[0].0 == v {
        Some(s[0].1)
    } else {
        cached_target(s.drop_first(), v)
    }
}

/// The constant value cached for target `t`.
pub open spec fn cached_value(s: Seq<(u64, Target)>, t: Target) -> Option<u64>
    decreases s.len(),
{
    if s.len() == 0 {
        None
    } else if s[0].1 == t {
        Some(s[0].0)
    } else {
        cached_value(s.drop_first(), t)
    }
}

proof fn lemma_cached_target_none(s: Seq<(u64, Target)>, v: u64)
    requires
        cached_target(s, v) is None,
    ensures
        forall|k: int| 0 <= k < s.len() ==> (#[trigger] s[k]).0 != v,
    decreases s.len(),
{
    if s.len() > 0 {
        lemma_cached_target_none(s.drop_first(), v);
        assert forall|k: int| 0 <= k < s.len() implies (#[trigger] s[k]).0 != v by {
            if k > 0 {
                assert(s.drop_first()[k - 1] == s[k]);
            }
        }
    }
}

proof fn lemma_cached_target_push(s: Seq<(u64, Target)>, v: u64, t: Target)
    requires
        cached_target(s, v) is None,
    ensures
        cached_target(s.push((v, t)), v) == Some(t),
    decreases s.len(),
{
    if s.len() == 0 {
        assert(s.push((v, t))[0] == (v, t));
    } else {
        lemma_cached_target_push(s.drop_first(), v, t);
        assert(s.push((v, t)).drop_first() =~= s.drop_first().push((v, t)));
    }
}

proof fn lemma_cached_value_push(s: Seq<(u64, Target)>, v: u64, t: Target)
    requires
        forall|k: int| 0 <= k < s.len() ==> (#[trigger] s[k]).1 != t,
    ensures
        cached_value(s.push((v, t)), t) == Some(v),
    decreases s.len(),
{
    if s.len() == 0 {
        assert(s.push((v, t))[0] == (v, t));
    } else {
        assert forall|k: int| 0 <= k < s.drop_first().len()
            implies (#[trigger] s.drop_first()[k]).1 != t by {
            assert(s.drop_first()[k] == s[k + 1]);
        }
        lemma_cached_value_push(s.drop_first(), v, t);
        assert(s.push((v, t)).drop_first() =~= s.drop_first().push((v, t)));
    }
}

proof fn lemma_cached_target_stable(s: Seq<(u64, Target)>, v: u64, w: u64, t: Target)
    requires
        cached_target(s, v) is Some,
    ensures
        cached_target(s.push((w, t)), v) == cached_target(s, v),
    decreases s.len(),
{
    if s.len() > 0 && s[0].0 != v {
        lemma_cached_target_stable(s.drop_first(), v, w, t);
        assert(s.push((w, t)).drop_first() =~= s.drop_first().push((w, t)));
    }
}

/// Validity of one operation against the configuration and the number of
/// targets allocated so far.
pub open spec fn op_wf(op: Operation, config: CircuitConfig, bound: usize) -> bool {
    &&& op.gate.fits(config.num_wires)
    &&& op.targets@.len() <= config.num_routed_wires
    &&& op.constants@.len() == op.gate.num_constants
    &&& forall|t: int| 0 <= t < op.targets@.len()
        ==> (#[trigger] op.targets@[t]).index < bound
    &&& forall|c: int| 0 <= c < op.constants@.len() ==> (#[trigger] op.constants@[c]) < GOLDILOCKS_ORDER
}

/// The mutable circuit description. Compilation consumes the builder by
/// value; nothing can be added afterwards.
pub struct CircuitBuilder {
    pub config: CircuitConfig,
    /// Targets to be made public.
    pub public_inputs: Vec<Target>,
    /// The next available target index.
    pub target_index: usize,
    pub copy_constraints: Vec<CopyConstraint>,
    /// A tree of named scopes, used for diagnostics only.
    pub context_log: ContextTree,
    /// Targets whose values the prover will display.
    pub marked_targets: Vec<MarkedTargets>,
    /// Direct gate rows, in insertion order; rows may repeat.
    pub gate_instances: Vec<GateInstance>,
    /// Deduplicated operations; each becomes one row at compile time.
    pub operations: Vec<Operation>,
    /// Generators used to generate the witness.
    pub generators: Vec<Generator>,
    /// The constant cache: value-to-target, injective both ways.
    pub constants: Vec<(u64, Target)>,
}

impl CircuitBuilder {
    pub open spec fn wf(self) -> bool {
        &&& self.config.valid()
        &&& forall|k: int| 0 <= k < self.gate_instances@.len()
            ==> (#[trigger] self.gate_instances@[k]).gate.fits(self.config.num_wires)
                && self.gate_instances@[k].constants@.len()
                    == self.gate_instances@[k].gate.num_constants
                && (forall|c: int| 0 <= c < self.gate_instances@[k].constants@.len()
                    ==> (#[trigger] self.gate_instances@[k].constants@[c]) < GOLDILOCKS_ORDER)
        &&& forall|k: int| 0 <= k < self.operations@.len()
            ==> op_wf(#[trigger] self.operations@[k], self.config, self.target_index)
        &&& forall|k: int| 0 <= k < self.constants@.len()
            ==> (#[trigger] self.constants@[k]).1.index < self.target_index
                && self.constants@[k].0 < GOLDILOCKS_ORDER
        &&& forall|k1: int, k2: int| 0 <= k1 < k2 < self.constants@.len()
            ==> (#[trigger] self.constants@[k1]).0 != (#[trigger] self.constants@[k2]).0
                && self.constants@[k1].1 != self.constants@[k2].1
    }

    /// A fresh builder over a validated configuration. The security gate is
    /// checked here, before any gate can be added: construction fails if and
    /// only if the configuration is invalid.
    pub fn new(config: CircuitConfig) -> (r: Result<CircuitBuilder, CircuitError>)
        ensures
            r is Ok <==> config.valid(),
            match r {
                Ok(b) => {
                    &&& b.wf()
                    &&& b.config == config
                    &&& b.target_index == 0
                    &&& b.public_inputs@.len() == 0
                    &&& b.copy_constraints@.len() == 0
                    &&& b.gate_instances@.len() == 0
                    &&& b.operations@.len() == 0
                    &&& b.generators@.len() == 0
                    &&& b.constants@.len() == 0
                    &&& b.marked_targets@.len() == 0
                },
                Err(e) => e == CircuitError::InvalidConfig,
            },
    {
        if !config.is_valid() {
            return Err(CircuitError::InvalidConfig);
        }
        Ok(CircuitBuilder {
            config,
            public_inputs: Vec::new(),
            target_index: 0,
            copy_constraints: Vec::new(),
            context_log: ContextTree { open_scopes: Vec::new(), closed_scopes: Vec::new() },
            marked_targets: Vec::new(),
            gate_instances: Vec::new(),
            operations: Vec::new(),
            generators: Vec::new(),
            constants: Vec::new(),
        })
    }

    /// Registers the given target as a public input.
    pub fn register_public_input(&mut self, target: Target)
        ensures
            final(self).public_inputs@ == old(self).public_inputs@.push(target),
            final(self).target_index == old(self).target_index,
            final(self).constants@ == old(self).constants@,
            final(self).operations@ == old(self).operations@,
            final(self).gate_instances@ == old(self).gate_instances@,
            final(self).copy_constraints@ == old(self).copy_constraints@,
            final(self).generators@ == old(self).generators@,
            final(self).marked_targets@ == old(self).marked_targets@,
            final(self).config == old(self).config,
            old(self).wf() ==> final(self).wf(),
    {
        self.public_inputs.push(target);
    }

    /// Registers the given targets as public inputs.
    pub fn register_public_inputs(&mut self, targets: &Vec<Target>)
        ensures
            final(self).public_inputs@ == old(self).public_inputs@ + targets@,
            final(self).target_index == old(self).target_index,
            final(self).config == old(self).config,
            old(self).wf() ==> final(self).wf(),
    {
        let mut i: usize = 0;
        proof {
            assert(self.public_inputs@ =~= old(self).public_inputs@ + targets@.take(0));
        }
        while i < targets.len()
            invariant
                i <= targets@.len(),
                self.public_inputs@ == old(self).public_inputs@ + targets@.take(i as int),
                self.target_index == old(self).target_index,
                self.constants@ == old(self).constants@,
                self.operations@ == old(self).operations@,
                self.gate_instances@ == old(self).gate_instances@,
                self.copy_constraints@ == old(self).copy_constraints@,
                self.config == old(self).config,
                self.generators@ == old(self).generators@,
            decreases targets@.len() - i,
        {
            self.register_public_input(targets[i]);
            proof {
                assert(old(self).public_inputs@ + targets@.take(i as int + 1)
                    =~= (old(self).public_inputs@ + targets@.take(i as int)).push(targets@[i as int]));
            }
            i = i + 1;
        }
        proof {
            assert(targets@.take(targets@.len() as int) =~= targets@);
        }
    }

    /// Allocates a fresh target, never returned before.
    pub fn add_target(&mut self) -> (r: Target)
        requires
            old(self).target_index < usize::MAX,
        ensures
            r.index == old(self).target_index,
            final(self).target_index == old(self).target_index + 1,
            final(self).public_inputs@ == old(self).public_inputs@,
            final(self).constants@ == old(self).constants@,
            final(self).operations@ == old(self).operations@,
            final(self).gate_instances@ == old(self).gate_instances@,
            final(self).copy_constraints@ == old(self).copy_constraints@,
            final(self).generators@ == old(self).generators@,
            final(self).marked_targets@ == old(self).marked_targets@,
            final(self).config == old(self).config,
            old(self).wf() ==> final(self).wf(),
    {
        let index = self.target_index;
        self.target_index = self.target_index + 1;
        Target { index }
    }

    /// Allocates `n` fresh targets.
    pub fn add_targets(&mut self, n: usize) -> (r: Vec<Target>)
        requires
            old(self).target_index + n <= usize::MAX,
        ensures
            r@.len() == n,
            forall|k: int| 0 <= k < n
                ==> (#[trigger] r@[k]).index == old(self).target_index + k,
            final(self).target_index == old(self).target_index + n,
            final(self).public_inputs@ == old(self).public_inputs@,
            final(self).constants@ == old(self).constants@,
            final(self).operations@ == old(self).operations@,
            final(self).gate_instances@ == old(self).gate_instances@,
            final(self).copy_constraints@ == old(self).copy_constraints@,
            final(self).generators@ == old(self).generators@,
            final(self).config == old(self).config,
            old(self).wf() ==> final(self).wf(),
    {
        let mut out: Vec<Target> = Vec::new();
        let mut i: usize = 0;
        while i < n
            invariant
                i <= n,
                old(self).target_index + n <= usize::MAX,
                self.target_index == old(self).target_index + i,
                out@.len() == i,
                forall|k: int| 0 <= k < i
                    ==> (#[trigger] out@[k]).index == old(self).target_index + k,
                self.public_inputs@ == old(self).public_inputs@,
                self.constants@ == old(self).constants@,
                self.operations@ == old(self).operations@,
                self.gate_instances@ == old(self).gate_instances@,
                self.copy_constraints@ == old(self).copy_constraints@,
                self.generators@ == old(self).generators@,
                self.config == old(self).config,
                old(self).wf() ==> self.wf(),
            decreases n - i,
        {
            let t = self.add_target();
            out.push(t);
            i = i + 1;
        }
        out
    }

    /// Allocates the four targets of one hash output.
    pub fn add_hash(&mut self) -> (r: HashOutTarget)
        requires
            old(self).target_index + 4 <= usize::MAX,
        ensures
            final(self).target_index == old(self).target_index + 4,
            r.e0.index == old(self).target_index,
            r.e1.index == old(self).target_index + 1,
            r.e2.index == old(self).target_index + 2,
            r.e3.index == old(self).target_index + 3,
            old(self).wf() ==> final(self).wf(),
            final(self).config == old(self).config,
    {
        let e0 = self.add_target();
        let e1 = self.add_target();
        let e2 = self.add_target();
        let e3 = self.add_target();
        HashOutTarget { e0, e1, e2, e3 }
    }

    /// Allocates `n` hash outputs.
    pub fn add_hashes(&mut self, n: usize) -> (r: Vec<HashOutTarget>)
        requires
            old(self).target_index + 4 * n <= usize::MAX,
        ensures
            r@.len() == n,
            final(self).target_index == old(self).target_index + 4 * n,
            forall|k: int| #![trigger r@[k]]
                0 <= k < n ==> r@[k].e0.index == old(self).target_index + 4 * k
                    && r@[k].e1.index == old(self).target_index + 4 * k + 1
                    && r@[k].e2.index == old(self).target_index + 4 * k + 2
                    && r@[k].e3.index == old(self).target_index + 4 * k + 3,
            old(self).wf() ==> final(self).wf(),
            final(self).config == old(self).config,
    {
        let mut out: Vec<HashOutTarget> = Vec::new();
        let mut i: usize = 0;
        while i < n
            invariant
                i <= n,
                old(self).target_index + 4 * n <= usize::MAX,
                self.target_index == old(self).target_index + 4 * i,
                out@.len() == i,
                forall|k: int| #![trigger out@[k]]
                    0 <= k < i ==> out@[k].e0.index == old(self).target_index + 4 * k
                        && out@[k].e1.index == old(self).target_index + 4 * k + 1
                        && out@[k].e2.index == old(self).target_index + 4 * k + 2
                        && out@[k].e3.index == old(self).target_index + 4 * k + 3,
                old(self).wf() ==> self.wf(),
                self.config == old(self).config,
            decreases n - i,
        {
            let h = self.add_hash();
            out.push(h);
            i = i + 1;
        }
        out
    }

    /// Allocates the hash targets of a Merkle cap of the given height.
    pub fn add_cap(&mut self, cap_height: usize) -> (r: Option<MerkleCapTarget>)
        ensures
            match r {
                Some(cap) => cap.0@.len() == pow2(cap_height as nat)
                    && final(self).target_index as int
                        == old(self).target_index + 4 * pow2(cap_height as nat)
                    && forall|k: int| #![trigger cap.0@[k]]
                        0 <= k < cap.0@.len()
                        ==> cap.0@[k].e0.index == old(self).target_index + 4 * k
                            && cap.0@[k].e1.index == old(self).target_index + 4 * k + 1
                            && cap.0@[k].e2.index == old(self).target_index + 4 * k + 2
                            && cap.0@[k].e3.index == old(self).target_index + 4 * k + 3,
                None => *final(self) == *old(self),
            },
            old(self).wf() ==> final(self).wf(),
            final(self).config == old(self).config,
    {
        let n = match crate::util::checked_pow2(cap_height) {
            Some(n) => n,
            None => {
                return None;
            },
        };
        if n > usize::MAX / 4 {
            return None;
        }
        let need = 4 * n;
        if self.target_index > usize::MAX - need {
            return None;
        }
        Some(MerkleCapTarget(self.add_hashes(n)))
    }

    /// Allocates an extension target: one target per coefficient.
    pub fn add_extension_target(&mut self) -> (r: ExtensionTarget)
        requires
            old(self).target_index + 2 <= usize::MAX,
        ensures
            final(self).target_index == old(self).target_index + 2,
            r.t0.index == old(self).target_index,
            r.t1.index == old(self).target_index + 1,
            old(self).wf() ==> final(self).wf(),
            final(self).config == old(self).config,
    {
        let t0 = self.add_target();
        let t1 = self.add_target();
        ExtensionTarget { t0, t1 }
    }

    /// Allocates `n` extension targets.
    pub fn add_extension_targets(&mut self, n: usize) -> (r: Vec<ExtensionTarget>)
        requires
            old(self).target_index + 2 * n <= usize::MAX,
        ensures
            r@.len() == n,
            final(self).target_index == old(self).target_index + 2 * n,
            forall|k: int| #![trigger r@[k]]
                0 <= k < n ==> r@[k].t0.index == old(self).target_index + 2 * k
                    && r@[k].t1.index == old(self).target_index + 2 * k + 1,
            old(self).wf() ==> final(self).wf(),
            final(self).config == old(self).config,
    {
        let mut out: Vec<ExtensionTarget> = Vec::new();
        let mut i: usize = 0;
        while i < n
            invariant
                i <= n,
                old(self).target_index + 2 * n <= usize::MAX,
                self.target_index == old(self).target_index + 2 * i,
                out@.len() == i,
                forall|k: int| #![trigger out@[k]]
                    0 <= k < i ==> out@[k].t0.index == old(self).target_index + 2 * k
                        && out@[k].t1.index == old(self).target_index + 2 * k + 1,
                old(self).wf() ==> self.wf(),
                self.config == old(self).config,
            decreases n - i,
        {
            let e = self.add_extension_target();
            out.push(e);
            i = i + 1;
        }
        out
    }

    /// Allocates a fresh target that the caller asserts will hold a boolean
    /// value; no constraint is generated.
    pub fn add_bool_target(&mut self) -> (r: BoolTarget)
        requires
            old(self).target_index < usize::MAX,
        ensures
            r.target.index == old(self).target_index,
            final(self).target_index == old(self).target_index + 1,
            old(self).wf() ==> final(self).wf(),
            final(self).config == old(self).config,
    {
        let t = self.add_target();
        BoolTarget::new_unchecked(t)
    }

    /// Adds an operation to the builder; a structurally equal operation is
    /// recorded only once. Fails on an operation that does not fit the
    /// configuration.
    #[verifier::loop_isolation(false)]
    pub fn add_operation(&mut self, op: Operation) -> (r: Result<(), CircuitError>)
        requires
            old(self).wf(),
        ensures
            final(self).wf(),
            r is Ok <==> op_wf(op, old(self).config, old(self).target_index),
            final(self).target_index == old(self).target_index,
            final(self).config == old(self).config,
            final(self).constants@ == old(self).constants@,
            final(self).gate_instances@ == old(self).gate_instances@,
            final(self).copy_constraints@ == old(self).copy_constraints@,
            final(self).public_inputs@ == old(self).public_inputs@,
            final(self).generators@ == old(self).generators@,
            match r {
                Ok(()) => {
                    if ops_contain(old(self).operations@, op) {
                        final(self).operations@ == old(self).operations@
                    } else {
                        final(self).operations@ == old(self).operations@.push(op)
                    }
                },
                Err(e) => final(self).operations@ == old(self).operations@
                    && (e == CircuitError::GateTooWide
                        || e == CircuitError::TooManyOperationTargets
                        || e == CircuitError::ConstantCountMismatch),
            },
    {
        if !(op.gate.num_wires <= self.config.num_wires
            && op.gate.num_constants <= crate::gates::MAX_GATE_DEGREE
            && op.gate.num_constraints <= crate::gates::MAX_GATE_DEGREE
            && op.gate.degree <= crate::gates::MAX_GATE_DEGREE)
        {
            return Err(CircuitError::GateTooWide);
        }
        if op.targets.len() > self.config.num_routed_wires
            || !targets_below(&op.targets, self.target_index)
        {
            return Err(CircuitError::TooManyOperationTargets);
        }
        if op.constants.len() != op.gate.num_constants
            || !values_canonical(&op.constants)
        {
            return Err(CircuitError::ConstantCountMismatch);
        }
        let mut k: usize = 0;
        let n = self.operations.len();
        while k < n
            invariant
                k <= n,
                n == self.operations@.len(),
                forall|t: int| 0 <= t < k ==> !op_eqv(#[trigger] self.operations@[t], op),
            decreases n - k,
        {
            if op_eq(&self.operations[k], &op) {
                proof {
                    assert(ops_contain(self.operations@, op));
                }
                return Ok(());
            }
            k = k + 1;
        }
        proof {
            assert(!ops_contain(self.operations@, op)) by {
                if ops_contain(self.operations@, op) {
                    let t = choose|t: int| 0 <= t < self.operations@.len()
                        && op_eqv(#[trigger] self.operations@[t], op);
                    assert(!op_eqv(self.operations@[t], op));
                }
            }
        }
        self.operations.push(op);
        Ok(())
    }

    /// The number of recorded operations.
    pub fn num_operations(&self) -> (r: usize)
        ensures
            r == self.operations@.len(),
    {
        self.operations.len()
    }

    /// Appends one direct row for `gate_type` and hands back its position.
    /// Acceptance is exact: the type fits the configuration, and the
    /// constant list is canonical, of the type's own length. The stored row
    /// keeps those constants word for word.
    pub fn add_gate(&mut self, gate_type: GateType, constants: Vec<u64>) -> (r: Result<
        usize,
        CircuitError,
    >)
        requires
            old(self).wf(),
        ensures
            final(self).wf(),
            final(self).target_index == old(self).target_index,
            final(self).config == old(self).config,
            final(self).constants@ == old(self).constants@,
            final(self).operations@ == old(self).operations@,
            final(self).copy_constraints@ == old(self).copy_constraints@,
            final(self).public_inputs@ == old(self).public_inputs@,
            final(self).generators@ == old(self).generators@,
            final(self).marked_targets@ == old(self).marked_targets@,
            r is Ok <==> gate_type.fits(old(self).config.num_wires)
                && constants@.len() == gate_type.num_constants
                && (forall|c: int| 0 <= c < constants@.len()
                    ==> (#[trigger] constants@[c]) < GOLDILOCKS_ORDER),
            match r {
                Ok(idx) => {
                    &&& idx == old(self).gate_instances@.len()
                    &&& final(self).gate_instances@.len() == old(self).gate_instances@.len() + 1
                    &&& forall|k: int| 0 <= k < old(self).gate_instances@.len()
                        ==> #[trigger] final(self).gate_instances@[k]
                            == old(self).gate_instances@[k]
                    &&& final(self).gate_instances@[idx as int].gate == gate_type
                    &&& final(self).gate_instances@[idx as int].constants@ == constants@
                },
                Err(e) => final(self).gate_instances@ == old(self).gate_instances@
                    && (e == CircuitError::GateTooWide || e == CircuitError::ConstantCountMismatch),
            },
    {
        if !(gate_type.num_wires <= self.config.num_wires
            && gate_type.num_constants <= crate::gates::MAX_GATE_DEGREE
            && gate_type.num_constraints <= crate::gates::MAX_GATE_DEGREE
            && gate_type.degree <= crate::gates::MAX_GATE_DEGREE)
        {
            return Err(CircuitError::GateTooWide);
        }
        if constants.len() != gate_type.num_constants || !values_canonical(&constants) {
            return Err(CircuitError::ConstantCountMismatch);
        }
        let index = self.gate_instances.len();
        self.gate_instances.push(GateInstance { gate: gate_type, constants });
        Ok(index)
    }

    /// Uses the permutation argument to require that two targets be equal.
    pub fn connect(&mut self, x: Target, y: Target)
        ensures
            final(self).copy_constraints@
                == old(self).copy_constraints@.push(CopyConstraint { a: x, b: y }),
            final(self).target_index == old(self).target_index,
            final(self).config == old(self).config,
            final(self).constants@ == old(self).constants@,
            final(self).operations@ == old(self).operations@,
            final(self).gate_instances@ == old(self).gate_instances@,
            final(self).public_inputs@ == old(self).public_inputs@,
            final(self).generators@ == old(self).generators@,
            final(self).marked_targets@ == old(self).marked_targets@,
            old(self).wf() ==> final(self).wf(),
    {
        self.copy_constraints.push(CopyConstraint { a: x, b: y });
    }

    /// Requires the coefficients of two extension targets to be equal.
    pub fn connect_extension(&mut self, src: ExtensionTarget, dst: ExtensionTarget)
        ensures
            final(self).copy_constraints@ == old(self).copy_constraints@
                .push(CopyConstraint { a: src.t0, b: dst.t0 })
                .push(CopyConstraint { a: src.t1, b: dst.t1 }),
            final(self).target_index == old(self).target_index,
            final(self).config == old(self).config,
            final(self).constants@ == old(self).constants@,
            final(self).operations@ == old(self).operations@,
            final(self).gate_instances@ == old(self).gate_instances@,
            final(self).public_inputs@ == old(self).public_inputs@,
            final(self).generators@ == old(self).generators@,
            final(self).marked_targets@ == old(self).marked_targets@,
            old(self).wf() ==> final(self).wf(),
    {
        self.connect(src.t0, dst.t0);
        self.connect(src.t1, dst.t1);
    }

    /// Adds a generator that will copy `src` to `dst` during witness
    /// generation.
    pub fn generate_copy(&mut self, src: Target, dst: Target)
        ensures
            final(self).generators@.len() == old(self).generators@.len() + 1,
            final(self).generators@.last().watches@ == seq![src],
            final(self).target_index == old(self).target_index,
            final(self).config == old(self).config,
            old(self).wf() ==> final(self).wf(),
    {
        self.add_simple_generator(Generator::copy(src, dst));
    }

    /// Adds one witness generator.
    pub fn add_simple_generator(&mut self, generator: Generator)
        ensures
            final(self).generators@ == old(self).generators@.push(generator),
            final(self).target_index == old(self).target_index,
            final(self).config == old(self).config,
            final(self).constants@ == old(self).constants@,
            final(self).operations@ == old(self).operations@,
            final(self).gate_instances@ == old(self).gate_instances@,
            final(self).copy_constraints@ == old(self).copy_constraints@,
            final(self).public_inputs@ == old(self).public_inputs@,
            old(self).wf() ==> final(self).wf(),
    {
        self.generators.push(generator);
    }

    /// Adds a batch of witness generators.
    pub fn add_generators(&mut self, generators: Vec<Generator>)
        ensures
            final(self).generators@.len() == old(self).generators@.len() + generators@.len(),
            forall|k: int| 0 <= k < old(self).generators@.len()
                ==> #[trigger] final(self).generators@[k] == old(self).generators@[k],
            forall|k: int| 0 <= k < generators@.len()
                ==> (#[trigger] final(self).generators@[old(self).generators@.len() + k]).watches@
                    == generators@[k].watches@,
            final(self).target_index == old(self).target_index,
            final(self).config == old(self).config,
            old(self).wf() ==> final(self).wf(),
    {
        let mut gens = generators;
        let mut i: usize = 0;
        let n = gens.len();
        while i < n
            invariant
                i <= n,
                n == gens@.len(),
                gens@ == generators@,
                self.generators@.len() == old(self).generators@.len() + i,
                forall|k: int| 0 <= k < old(self).generators@.len()
                    ==> #[trigger] self.generators@[k] == old(self).generators@[k],
                forall|k: int| 0 <= k < i
                    ==> (#[trigger] self.generators@[old(self).generators@.len() + k]).watches@
                        == generators@[k].watches@,
                self.target_index == old(self).target_index,
                self.config == old(self).config,
                self.constants@ == old(self).constants@,
                self.operations@ == old(self).operations@,
                self.gate_instances@ == old(self).gate_instances@,
                self.copy_constraints@ == old(self).copy_constraints@,
                self.public_inputs@ == old(self).public_inputs@,
                old(self).wf() ==> self.wf(),
            decreases n - i,
        {
            let g = Generator { watches: copy_targets(&gens[i].watches) };
            self.add_simple_generator(g);
            i = i + 1;
        }
    }
}

/// Whether every target's index is below `bound`.
fn targets_below(ts: &Vec<Target>, bound: usize) -> (r: bool)
    ensures
        r <==> forall|t: int| 0 <= t < ts@.len() ==> (#[trigger] ts@[t]).index < bound,
{
    let mut i: usize = 0;
    while i < ts.len()
        invariant
            i <= ts@.len(),
            forall|t: int| 0 <= t < i ==> (#[trigger] ts@[t]).index < bound,
        decreases ts@.len() - i,
    {
        if ts[i].index >= bound {
            return false;
        }
        i = i + 1;
    }
    true
}

/// Whether every value is a canonical field element.
fn values_canonical(vs: &Vec<u64>) -> (r: bool)
    ensures
        r <==> forall|t: int| 0 <= t < vs@.len() ==> (#[trigger] vs@[t]) < GOLDILOCKS_ORDER,
{
    let mut i: usize = 0;
    while i < vs.len()
        invariant
            i <= vs@.len(),
            forall|t: int| 0 <= t < i ==> (#[trigger] vs@[t]) < GOLDILOCKS_ORDER,
        decreases vs@.len() - i,
    {
        if vs[i] >= GOLDILOCKS_ORDER {
            return false;
        }
        i = i + 1;
    }
    true
}

/// A copy of a value vector.
pub fn copy_u64s(v: &Vec<u64>) -> (r: Vec<u64>)
    ensures
        r@ == v@,
{
    let mut out: Vec<u64> = Vec::new();
    let mut i: usize = 0;
    while i < v.len()
        invariant
            i <= v@.len(),
            out@ == v@.take(i as int),
        decreases v@.len() - i,
    {
        out.push(v[i]);
        proof {
            assert(v@.take(i as int + 1) =~= v@.take(i as int).push(v@[i as int]));
        }
        i = i + 1;
    }
    proof {
        assert(v@.take(v@.len() as int) =~= v@);
    }
    out
}

/// A copy of a target vector.
pub fn copy_targets(v: &Vec<Target>) -> (r: Vec<Target>)
    ensures
        r@ == v@,
{
    let mut out: Vec<Target> = Vec::new();
    let mut i: usize = 0;
    while i < v.len()
        invariant
            i <= v@.len(),
            out@ == v@.take(i as int),
        decreases v@.len() - i,
    {
        out.push(v[i]);
        proof {
            assert(v@.take(i as int + 1) =~= v@.take(i as int).push(v@[i as int]));
        }
        i = i + 1;
    }
    proof {
        assert(v@.take(v@.len() as int) =~= v@);
    }
    out
}

/// Structural equality of two value vectors.
fn vec_u64_eq(a: &Vec<u64>, b: &Vec<u64>) -> (r: bool)
    ensures
        r <==> a@ == b@,
{
    if a.len() != b.len() {
        proof {
            assert(a@ != b@);
        }
        return false;
    }
    let mut i: usize = 0;
    while i < a.len()
        invariant
            i <= a@.len(),
            a@.len() == b@.len(),
            forall|t: int| 0 <= t < i ==> a@[t] == b@[t],
        decreases a@.len() - i,
    {
        if a[i] != b[i] {
            return false;
        }
        i = i + 1;
    }
    proof {
        assert(a@ =~= b@);
    }
    true
}

/// Structural equality of two target vectors.
fn vec_target_eq(a: &Vec<Target>, b: &Vec<Target>) -> (r: bool)
    ensures
        r <==> a@ == b@,
{
    if a.len() != b.len() {
        proof {
            assert(a@ != b@);
        }
        return false;
    }
    let mut i: usize = 0;
    while i < a.len()
        invariant
            i <= a@.len(),
            a@.len() == b@.len(),
            forall|t: int| 0 <= t < i ==> a@[t] == b@[t],
        decreases a@.len() - i,
    {
        if a[i] != b[i] {
            return false;
        }
        i = i + 1;
    }
    proof {
        assert(a@ =~= b@);
    }
    true
}

/// Structural equality of two operations.
fn op_eq(a: &Operation, b: &Operation) -> (r: bool)
    ensures
        r <==> op_eqv(*a, *b),
{
    a.gate == b.gate && vec_u64_eq(&a.constants, &b.constants)
        && vec_target_eq(&a.targets, &b.targets)
}

} // verus!


verus! {

proof fn lemma_cached_target_first(s: Seq<(u64, Target)>, v: u64, i: int)
    requires
        0 <= i < s.len(),
        s[i].0 == v,
        forall|t: int| 0 <= t < i ==> (#[trigger] s[t]).0 != v,
    ensures
        cached_target(s, v) == Some(s[i].1),
    decreases i,
{
    if i > 0 {
        assert forall|t: int| 0 <= t < i - 1 implies (#[trigger] s.drop_first()[t]).0 != v by {
            assert(s.drop_first()[t] == s[t + 1]);
        }
        assert(s.drop_first()[i - 1] == s[i]);
        lemma_cached_target_first(s.drop_first(), v, i - 1);
    }
}

proof fn lemma_cached_value_first(s: Seq<(u64, Target)>, t: Target, i: int)
    requires
        0 <= i < s.len(),
        s[i].1 == t,
        forall|k: int| 0 <= k < i ==> (#[trigger] s[k]).1 != t,
    ensures
        cached_value(s, t) == Some(s[i].0),
    decreases i,
{
    if i > 0 {
        assert forall|k: int| 0 <= k < i - 1 implies (#[trigger] s.drop_first()[k]).1 != t by {
            assert(s.drop_first()[k] == s[k + 1]);
        }
        assert(s.drop_first()[i - 1] == s[i]);
        lemma_cached_value_first(s.drop_first(), t, i - 1);
    }
}

proof fn lemma_cached_value_none(s: Seq<(u64, Target)>, t: Target)
    requires
        forall|k: int| 0 <= k < s.len() ==> (#[trigger] s[k]).1 != t,
    ensures
        cached_value(s, t) is None,
    decreases s.len(),
{
    if s.len() > 0 {
        assert forall|k: int| 0 <= k < s.drop_first().len()
            implies (#[trigger] s.drop_first()[k]).1 != t by {
            assert(s.drop_first()[k] == s[k + 1]);
        }
        lemma_cached_value_none(s.drop_first(), t);
    }
}

proof fn lemma_cached_value_stable(s: Seq<(u64, Target)>, t: Target, w: u64, u: Target)
    requires
        cached_value(s, t) is Some,
    ensures
        cached_value(s.push((w, u)), t) == cached_value(s, t),
    decreases s.len(),
{
    if s.len() > 0 && s[0].1 != t {
        lemma_cached_value_stable(s.drop_first(), t, w, u);
        assert(s.push((w, u)).drop_first() =~= s.drop_first().push((w, u)));
    }
}

impl CircuitBuilder {
    /// A routed target holding the given constant value. Idempotent per
    /// value: a second call with an equal value returns the same target and
    /// changes nothing; a first call reserves a fresh target and one slot in
    /// a constant-emitting row, recording the value-target pair both ways.
    #[verifier::loop_isolation(false)]
    pub fn constant(&mut self, c: u64) -> (r: Target)
        requires
            old(self).wf(),
            is_canonical(c),
            old(self).target_index < usize::MAX,
        ensures
            final(self).wf(),
            final(self).config == old(self).config,
            cached_target(final(self).constants@, c) == Some(r),
            cached_value(final(self).constants@, r) == Some(c),
            final(self).operations@ == old(self).operations@,
            final(self).gate_instances@ == old(self).gate_instances@,
            final(self).copy_constraints@ == old(self).copy_constraints@,
            final(self).public_inputs@ == old(self).public_inputs@,
            final(self).generators@ == old(self).generators@,
            final(self).marked_targets@ == old(self).marked_targets@,
            cached_target(old(self).constants@, c) is Some
                ==> final(self).constants@ == old(self).constants@
                    && final(self).target_index == old(self).target_index
                    && cached_target(old(self).constants@, c) == Some(r),
            cached_target(old(self).constants@, c) is None
                ==> r.index == old(self).target_index
                    && final(self).target_index == old(self).target_index + 1
                    && final(self).constants@ == old(self).constants@.push((c, r)),
    {
        let n = self.constants.len();
        let mut i: usize = 0;
        while i < n
            invariant
                i <= n,
                forall|t: int| 0 <= t < i ==> (#[trigger] self.constants@[t]).0 != c,
            decreases n - i,
        {
            if self.constants[i].0 == c {
                let t = self.constants[i].1;
                proof {
                    lemma_cached_target_first(self.constants@, c, i as int);
                    assert forall|k: int| 0 <= k < i
                        implies (#[trigger] self.constants@[k]).1 != t by {
                        if self.constants@[k].1 == t {
                            assert(self.constants@[k] != self.constants@[i as int]);
                        }
                    }
                    lemma_cached_value_first(self.constants@, t, i as int);
                }
                return t;
            }
            i = i + 1;
        }
        proof {
            if cached_target(self.constants@, c) is Some {
                lemma_cached_target_some_witness(self.constants@, c);
            }
        }
        let t = self.add_target();
        proof {
            lemma_cached_target_push(self.constants@, c, t);
            assert forall|k: int| 0 <= k < self.constants@.len()
                implies (#[trigger] self.constants@[k]).1 != t by {}
            lemma_cached_value_push(self.constants@, c, t);
        }
        self.constants.push((c, t));
        t
    }

    /// One routed constant target per value, in order.
    #[verifier::loop_isolation(false)]
    pub fn constants(&mut self, values: &Vec<u64>) -> (r: Vec<Target>)
        requires
            old(self).wf(),
            forall|k: int| 0 <= k < values@.len() ==> (#[trigger] values@[k]) < GOLDILOCKS_ORDER,
            old(self).target_index + values@.len() <= usize::MAX,
        ensures
            final(self).wf(),
            final(self).config == old(self).config,
            r@.len() == values@.len(),
            forall|k: int| 0 <= k < values@.len()
                ==> cached_value(final(self).constants@, #[trigger] r@[k]) == Some(values@[k]),
    {
        let mut out: Vec<Target> = Vec::new();
        let mut i: usize = 0;
        while i < values.len()
            invariant
                i <= values@.len(),
                self.wf(),
                self.config == old(self).config,
                self.target_index <= old(self).target_index + i,
                out@.len() == i,
                forall|k: int| 0 <= k < i
                    ==> cached_value(self.constants@, #[trigger] out@[k]) == Some(values@[k]),
            decreases values@.len() - i,
        {
            let ghost before = self.constants@;
            let t = self.constant(values[i]);
            proof {
                assert forall|k: int| 0 <= k < i
                    implies cached_value(self.constants@, #[trigger] out@[k])
                        == Some(values@[k]) by {
                    if self.constants@ != before {
                        lemma_cached_value_stable(before, out@[k], values@[i as int], t);
                    }
                }
            }
            out.push(t);
            i = i + 1;
        }
        out
    }

    /// A routed target with value zero.
    pub fn zero(&mut self) -> (r: Target)
        requires
            old(self).wf(),
            old(self).target_index < usize::MAX,
        ensures
            final(self).wf(),
            final(self).config == old(self).config,
            cached_target(final(self).constants@, 0) == Some(r),
            cached_value(final(self).constants@, r) == Some(0u64),
            final(self).copy_constraints@ == old(self).copy_constraints@,
            final(self).operations@ == old(self).operations@,
            final(self).gate_instances@ == old(self).gate_instances@,
            final(self).public_inputs@ == old(self).public_inputs@,
            final(self).generators@ == old(self).generators@,
            final(self).marked_targets@ == old(self).marked_targets@,
            cached_target(old(self).constants@, 0) is Some
                ==> final(self).constants@ == old(self).constants@
                    && final(self).target_index == old(self).target_index
                    && cached_target(old(self).constants@, 0) == Some(r),
    {
        self.constant(0)
    }

    /// A routed target with value one.
    pub fn one(&mut self) -> (r: Target)
        requires
            old(self).wf(),
            old(self).target_index < usize::MAX,
        ensures
            final(self).wf(),
            final(self).config == old(self).config,
            cached_target(final(self).constants@, 1) == Some(r),
            cached_value(final(self).constants@, r) == Some(1u64),
            final(self).copy_constraints@ == old(self).copy_constraints@,
            final(self).operations@ == old(self).operations@,
            final(self).gate_instances@ == old(self).gate_instances@,
            final(self).public_inputs@ == old(self).public_inputs@,
            final(self).generators@ == old(self).generators@,
            final(self).marked_targets@ == old(self).marked_targets@,
            cached_target(old(self).constants@, 1) is Some
                ==> final(self).constants@ == old(self).constants@
                    && final(self).target_index == old(self).target_index
                    && cached_target(old(self).constants@, 1) == Some(r),
    {
        self.constant(1)
    }

    /// A routed target with value two.
    pub fn two(&mut self) -> (r: Target)
        requires
            old(self).wf(),
            old(self).target_index < usize::MAX,
        ensures
            final(self).wf(),
            final(self).config == old(self).config,
            cached_target(final(self).constants@, 2) == Some(r),
            cached_value(final(self).constants@, r) == Some(2u64),
            final(self).copy_constraints@ == old(self).copy_constraints@,
            final(self).operations@ == old(self).operations@,
            final(self).gate_instances@ == old(self).gate_instances@,
            final(self).public_inputs@ == old(self).public_inputs@,
            final(self).generators@ == old(self).generators@,
            final(self).marked_targets@ == old(self).marked_targets@,
            cached_target(old(self).constants@, 2) is Some
                ==> final(self).constants@ == old(self).constants@
                    && final(self).target_index == old(self).target_index
                    && cached_target(old(self).constants@, 2) == Some(r),
    {
        self.constant(2)
    }

    /// A routed target with the value of minus one: the field order less
    /// one.
    pub fn neg_one(&mut self) -> (r: Target)
        requires
            old(self).wf(),
            old(self).target_index < usize::MAX,
        ensures
            final(self).wf(),
            final(self).config == old(self).config,
            cached_target(final(self).constants@, (GOLDILOCKS_ORDER - 1) as u64) == Some(r),
            cached_value(final(self).constants@, r) == Some((GOLDILOCKS_ORDER - 1) as u64),
            final(self).copy_constraints@ == old(self).copy_constraints@,
            final(self).operations@ == old(self).operations@,
            final(self).gate_instances@ == old(self).gate_instances@,
            final(self).public_inputs@ == old(self).public_inputs@,
            final(self).generators@ == old(self).generators@,
            final(self).marked_targets@ == old(self).marked_targets@,
            cached_target(old(self).constants@, (GOLDILOCKS_ORDER - 1) as u64) is Some
                ==> final(self).constants@ == old(self).constants@
                    && final(self).target_index == old(self).target_index
                    && cached_target(old(self).constants@, (GOLDILOCKS_ORDER - 1) as u64)
                        == Some(r),
    {
        self.constant(GOLDILOCKS_ORDER - 1)
    }

    /// A boolean target fixed to false.
    pub fn bool_false(&mut self) -> (r: BoolTarget)
        requires
            old(self).wf(),
            old(self).target_index < usize::MAX,
        ensures
            final(self).wf(),
            final(self).config == old(self).config,
            cached_value(final(self).constants@, r.target) == Some(0u64),
    {
        let t = self.zero();
        BoolTarget::new_unchecked(t)
    }

    /// A boolean target fixed to true.
    pub fn bool_true(&mut self) -> (r: BoolTarget)
        requires
            old(self).wf(),
            old(self).target_index < usize::MAX,
        ensures
            final(self).wf(),
            final(self).config == old(self).config,
            cached_value(final(self).constants@, r.target) == Some(1u64),
    {
        let t = self.one();
        BoolTarget::new_unchecked(t)
    }

    /// A boolean target fixed to the given truth value.
    pub fn constant_bool(&mut self, b: bool) -> (r: BoolTarget)
        requires
            old(self).wf(),
            old(self).target_index < usize::MAX,
        ensures
            final(self).wf(),
            final(self).config == old(self).config,
            cached_value(final(self).constants@, r.target)
                == Some(if b { 1u64 } else { 0u64 }),
    {
        if b {
            self.bool_true()
        } else {
            self.bool_false()
        }
    }

    /// A target holding the given 32-bit constant.
    pub fn constant_u32(&mut self, c: u32) -> (r: U32Target)
        requires
            old(self).wf(),
            old(self).target_index < usize::MAX,
        ensures
            final(self).wf(),
            final(self).config == old(self).config,
            cached_value(final(self).constants@, r.target) == Some(c as u64),
    {
        let t = self.constant(c as u64);
        U32Target { target: t }
    }

    /// The constant value of a target created by `constant`, or `None` for
    /// any other target.
    #[verifier::loop_isolation(false)]
    pub fn target_as_constant(&self, target: Target) -> (r: Option<u64>)
        ensures
            r == cached_value(self.constants@, target),
    {
        let n = self.constants.len();
        let mut i: usize = 0;
        while i < n
            invariant
                i <= n,
                forall|t: int| 0 <= t < i ==> (#[trigger] self.constants@[t]).1 != target,
            decreases n - i,
        {
            if self.constants[i].1 == target {
                proof {
                    lemma_cached_value_first(self.constants@, target, i as int);
                }
                return Some(self.constants[i].0);
            }
            i = i + 1;
        }
        proof {
            lemma_cached_value_none(self.constants@, target);
        }
        None
    }

    /// The constant value of an extension target: defined exactly when both
    /// coefficient targets are constants.
    pub fn target_as_constant_ext(&self, target: ExtensionTarget) -> (r: Option<ExtensionValue>)
        ensures
            r == match (cached_value(self.constants@, target.t0), cached_value(
                self.constants@,
                target.t1,
            )) {
                (Some(c0), Some(c1)) => Some(ExtensionValue { c0, c1 }),
                _ => None::<ExtensionValue>,
            },
    {
        let a = self.target_as_constant(target.t0);
        let b = self.target_as_constant(target.t1);
        match (a, b) {
            (Some(c0), Some(c1)) => Some(ExtensionValue { c0, c1 }),
            _ => None,
        }
    }

    /// Requires a target to equal zero.
    pub fn assert_zero(&mut self, x: Target)
        requires
            old(self).wf(),
            old(self).target_index < usize::MAX,
        ensures
            final(self).wf(),
            final(self).config == old(self).config,
            final(self).copy_constraints@.len() == old(self).copy_constraints@.len() + 1,
            cached_value(
                final(self).constants@,
                final(self).copy_constraints@.last().b,
            ) == Some(0u64),
            final(self).copy_constraints@.last().a == x,
    {
        let zero = self.zero();
        self.connect(x, zero);
    }

    /// Requires a target to equal one.
    pub fn assert_one(&mut self, x: Target)
        requires
            old(self).wf(),
            old(self).target_index < usize::MAX,
        ensures
            final(self).wf(),
            final(self).config == old(self).config,
            final(self).copy_constraints@.len() == old(self).copy_constraints@.len() + 1,
            cached_value(
                final(self).constants@,
                final(self).copy_constraints@.last().b,
            ) == Some(1u64),
            final(self).copy_constraints@.last().a == x,
    {
        let one = self.one();
        self.connect(x, one);
    }

    /// Opens a named diagnostic scope.
    pub fn push_context(&mut self, level: Level, ctx: String)
        ensures
            final(self).context_log.open_scopes@.len()
                == old(self).context_log.open_scopes@.len() + 1,
            final(self).operations@ == old(self).operations@,
            final(self).target_index == old(self).target_index,
            final(self).config == old(self).config,
            old(self).wf() ==> final(self).wf(),
    {
        let at = self.operations.len();
        self.context_log.open_scopes.push((ctx, level, at));
    }

    /// Closes the innermost diagnostic scope, recording its operation span.
    pub fn pop_context(&mut self)
        ensures
            final(self).operations@ == old(self).operations@,
            final(self).target_index == old(self).target_index,
            final(self).config == old(self).config,
            old(self).wf() ==> final(self).wf(),
    {
        let at = self.operations.len();
        match self.context_log.open_scopes.pop() {
            Some((name, _level, entered)) => {
                self.context_log.closed_scopes.push((name, entered, at));
            },
            None => {},
        }
    }

    /// Records a group of targets whose values the prover should display.
    pub fn add_marked(&mut self, targets: Markable, name: String)
        ensures
            final(self).marked_targets@.len() == old(self).marked_targets@.len() + 1,
            forall|k: int| 0 <= k < old(self).marked_targets@.len()
                ==> #[trigger] final(self).marked_targets@[k] == old(self).marked_targets@[k],
            final(self).marked_targets@.last().targets == targets,
            final(self).marked_targets@.last().name@ == name@,
            final(self).operations@ == old(self).operations@,
            final(self).target_index == old(self).target_index,
            final(self).config == old(self).config,
            old(self).wf() ==> final(self).wf(),
    {
        self.marked_targets.push(MarkedTargets { targets, name });
    }

    /// The number of base-field arithmetic operations one gate row can hold:
    /// each takes four routed wires.
    pub fn num_base_arithmetic_ops_per_gate(&self) -> (r: usize)
        ensures
            r == if self.config.use_base_arithmetic_gate {
                self.config.num_routed_wires as int / 4
            } else {
                self.config.num_routed_wires as int / 8
            },
    {
        if self.config.use_base_arithmetic_gate {
            self.config.num_routed_wires / 4
        } else {
            self.num_ext_arithmetic_ops_per_gate()
        }
    }

    /// The number of extension-field arithmetic operations one gate row can
    /// hold: each takes four extension operands of two wires each.
    pub fn num_ext_arithmetic_ops_per_gate(&self) -> (r: usize)
        ensures
            r == self.config.num_routed_wires as int / 8,
    {
        self.config.num_routed_wires / 8
    }
}

proof fn lemma_cached_target_some_witness(s: Seq<(u64, Target)>, v: u64)
    requires
        cached_target(s, v) is Some,
    ensures
        exists|k: int| 0 <= k < s.len() && (#[trigger] s[k]).0 == v,
    decreases s.len(),
{
    if s.len() > 0 && s[0].0 != v {
        lemma_cached_target_some_witness(s.drop_first(), v);
        let k = choose|k: int| 0 <= k < s.drop_first().len()
            && (#[trigger] s.drop_first()[k]).0 == v;
        assert(s[k + 1].0 == v);
    }
}

} // verus!

verus! {

/// The ceiling of `a / b`.
pub open spec fn ceil_div(a: int, b: int) -> int {
    (a + b - 1) / b
}

/// Whether an operation, a cached constant, or a registered public input
/// places the target with allocator index `i` on the grid.
pub open spec fn placed_index_parts(
    ops: Seq<Operation>,
    consts: Seq<(u64, Target)>,
    pis: Seq<Target>,
    i: int,
) -> bool {
    ||| exists|k: int, w: int|
        0 <= k < ops.len() && 0 <= w < ops[k].targets@.len()
            && (#[trigger] ops[k].targets@[w]).index == i
    ||| exists|k: int| 0 <= k < consts.len() && (#[trigger] consts[k]).1.index == i
    ||| exists|k: int| 0 <= k < pis.len() && (#[trigger] pis[k]).index == i
}

/// Whether the description places the target with allocator index `i`.
pub open spec fn placed_index(b: CircuitBuilder, i: int) -> bool {
    placed_index_parts(b.operations@, b.constants@, b.public_inputs@, i)
}

/// A referenced target resolves to a wire when it was allocated and placed.
pub open spec fn target_resolvable(b: CircuitBuilder, t: Target) -> bool {
    t.index < b.target_index && placed_index(b, t.index as int)
}

/// Whether some copy constraint, generator watch, or public input references
/// a target the compilation cannot place; exactly then compilation aborts
/// with an unplaced-target error.
pub open spec fn has_unplaced_reference(b: CircuitBuilder) -> bool {
    ||| exists|k: int| 0 <= k < b.copy_constraints@.len()
        && (!target_resolvable(b, (#[trigger] b.copy_constraints@[k]).a)
            || !target_resolvable(b, b.copy_constraints@[k].b))
    ||| exists|g: int, w: int|
        0 <= g < b.generators@.len() && 0 <= w < b.generators@[g].watches@.len()
            && !target_resolvable(b, #[trigger] b.generators@[g].watches@[w])
    ||| exists|k: int| 0 <= k < b.public_inputs@.len()
        && (#[trigger] b.public_inputs@[k]).index >= b.target_index
}

/// 2^bits is the least power of two holding the description's rows.
pub open spec fn is_min_degree_bits(b: CircuitBuilder, bits: nat) -> bool {
    pow2(bits) >= user_rows(b) && (bits == 0 || pow2((bits - 1) as nat) < user_rows(b))
}

/// A machine or field limit that forces compilation to give up: the row or
/// slot counts overflow the word, the padded degree with the blowup exceeds
/// the field's two-adicity, or a table the machine cannot hold.
pub open spec fn degree_pressure(b: CircuitBuilder) -> bool {
    ||| b.constants@.len() + b.config.num_routed_wires > usize::MAX
    ||| 2 * user_rows(b) > usize::MAX
    ||| pow2(64) <= usize::MAX
    ||| exists|bits: nat|
        is_min_degree_bits(b, bits) && (#[trigger] pow2(bits) * b.config.num_routed_wires
            > usize::MAX || bits + b.config.fri_config.rate_bits > crate::field::TWO_ADICITY)
    ||| pow2(b.config.fri_config.cap_height as nat) > usize::MAX
    ||| exists|k: nat| k < crate::field::TWO_ADICITY && #[trigger] pow2(k) > usize::MAX
}

/// Whether two routed columns share a domain element, or a shift degenerates
/// to zero, over the enumerated shifts and subgroup; exactly this makes the
/// permutation encoding unsound, so compilation aborts on it.
pub open spec fn cosets_degenerate(nr: usize, bits: nat) -> bool {
    ||| exists|i: int| 0 <= i < nr && #[trigger] coset_shift(i as nat) == 0
    ||| exists|i: int, j: int, a: int, c: int|
        0 <= i < nr && 0 <= j < nr && i != j && 0 <= a < pow2(bits) && 0 <= c < pow2(bits)
            && #[trigger] crate::field::f_mul(coset_shift(i as nat), subgroup_element(bits, a as nat))
                == #[trigger] crate::field::f_mul(coset_shift(j as nat), subgroup_element(bits, c as nat))
}

/// The admissible upper end of the quotient-degree range.
pub open spec fn quotient_hi(config: CircuitConfig) -> int {
    if config.max_quotient_degree_factor as int
        <= pow2(config.fri_config.rate_bits as nat) as int {
        config.max_quotient_degree_factor as int
    } else {
        pow2(config.fri_config.rate_bits as nat) as int
    }
}

/// The largest constraint degree among the description's own gate rows.
pub open spec fn max_instance_degree(s: Seq<GateInstance>) -> int
    decreases s.len(),
{
    if s.len() == 0 {
        0
    } else {
        let rest = max_instance_degree(s.drop_last());
        if s.last().gate.degree as int > rest {
            s.last().gate.degree as int
        } else {
            rest
        }
    }
}

/// The largest constraint degree among the description's operations.
pub open spec fn max_op_degree(s: Seq<Operation>) -> int
    decreases s.len(),
{
    if s.len() == 0 {
        0
    } else {
        let rest = max_op_degree(s.drop_last());
        if s.last().gate.degree as int > rest {
            s.last().gate.degree as int
        } else {
            rest
        }
    }
}

/// The largest constraint degree any materialized row can have: the
/// description's own gates, or the built-in rows of degree at most one.
pub open spec fn desc_degree_parts(base: Seq<GateInstance>, ops: Seq<Operation>) -> int {
    let a = max_instance_degree(base);
    let o = max_op_degree(ops);
    let m = if a > o { a } else { o };
    if m > 1 { m } else { 1 }
}

/// The same bound, over the builder.
pub open spec fn description_degree(b: CircuitBuilder) -> int {
    desc_degree_parts(b.gate_instances@, b.operations@)
}

/// Whether one of the first `upto` operations places index `i`.
pub open spec fn placed_in_ops_prefix(ops: Seq<Operation>, upto: int, i: int) -> bool {
    exists|k: int, w: int|
        0 <= k < upto && 0 <= w < ops[k].targets@.len()
            && (#[trigger] ops[k].targets@[w]).index == i
}

/// Whether one of the first `upto` cached constants places index `i`.
pub open spec fn placed_in_consts_prefix(consts: Seq<(u64, Target)>, upto: int, i: int) -> bool {
    exists|k: int| 0 <= k < upto && (#[trigger] consts[k]).1.index == i
}

/// Whether one of the first `upto` public inputs places index `i`.
pub open spec fn placed_in_pis_prefix(pis: Seq<Target>, upto: int, i: int) -> bool {
    exists|k: int| 0 <= k < upto && (#[trigger] pis[k]).index == i
}

pub proof fn lemma_max_instance_degree(s: Seq<GateInstance>, k: int)
    requires
        0 <= k < s.len(),
    ensures
        s[k].gate.degree as int <= max_instance_degree(s),
    decreases s.len(),
{
    if k < s.len() - 1 {
        assert(s.drop_last()[k] == s[k]);
        lemma_max_instance_degree(s.drop_last(), k);
    }
}

/// The shape half of a compilation's guarantee: the public circuit
/// description against the consumed builder `b` — least-power-of-two degree,
/// the stably ordered registry with equal-length pairwise-distinct selector
/// codes listing every description gate, the quotient factor in range, and
/// the fixed nonzero coset shifts.
#[verifier::opaque]
pub open spec fn compiled_shape_ok(b: CircuitBuilder, common: CommonCircuitData) -> bool {
    let bits = common.degree_bits as nat;
    let nr = b.config.num_routed_wires;
    &&& common.config == b.config
    &&& common.num_targets == b.target_index
    &&& common.degree_bits <= crate::field::TWO_ADICITY
    &&& pow2(bits) >= user_rows(b)
    &&& (common.degree_bits == 0 || pow2((common.degree_bits - 1) as nat) < user_rows(b))
    &&& common.fri_params.degree_bits == common.degree_bits
    &&& common.fri_params.wf()
    &&& crate::fri::total_arities(common.fri_params.reduction_arity_bits@) <= common.degree_bits
    &&& common.gates@.len() >= 1
    &&& forall|i: int, j: int|
        0 <= i < common.gates@.len() && 0 <= j < common.gates@.len()
            ==> (#[trigger] common.gates@[i]).prefix@.len()
                == (#[trigger] common.gates@[j]).prefix@.len()
    &&& forall|i: int, j: int| 0 <= i < j < common.gates@.len()
        ==> (#[trigger] common.gates@[i]).prefix@ != (#[trigger] common.gates@[j]).prefix@
            && crate::gates::gate_le(common.gates@[i].gate, common.gates@[j].gate)
            && common.gates@[i].gate != common.gates@[j].gate
    &&& forall|k: int| 0 <= k < b.gate_instances@.len()
        ==> gate_listed(common.gates@, (#[trigger] b.gate_instances@[k]).gate)
    &&& forall|k: int| 0 <= k < b.operations@.len()
        ==> gate_listed(common.gates@, (#[trigger] b.operations@[k]).gate)
    &&& forall|i: int| 0 <= i < common.gates@.len()
        ==> (#[trigger] common.gates@[i]).prefix@.len() + common.gates@[i].gate.num_constants
            <= common.num_constants
            && common.gates@[i].gate.num_constraints <= common.num_gate_constraints
    &&& (common.num_gate_constraints == 0 || exists|i: int| 0 <= i < common.gates@.len()
        && common.num_gate_constraints == (#[trigger] common.gates@[i]).gate.num_constraints)
    &&& common.quotient_degree_factor >= 1
    &&& forall|i: int| 0 <= i < common.gates@.len()
        ==> common.quotient_degree_factor + 1
            >= (#[trigger] common.gates@[i]).gate.degree + common.gates@[i].prefix@.len()
    &&& common.quotient_degree_factor <= b.config.max_quotient_degree_factor
    &&& common.quotient_degree_factor as int <= pow2(b.config.fri_config.rate_bits as nat)
    &&& common.num_partial_products as int == crate::quotient::num_partial_products_spec(
        nr as nat,
        common.quotient_degree_factor as nat,
    )
    &&& common.k_is@.len() == nr
    &&& forall|i: int| 0 <= i < nr ==> #[trigger] common.k_is@[i] == coset_shift(i as nat)
    &&& forall|i: int| 0 <= i < nr ==> #[trigger] common.k_is@[i] != 0
}

/// The polynomial half: the subgroup and its disjoint cosets, the committed
/// batch of constant then sigma columns — the sigma cells pinned to the
/// permutation the representative map induces — and the cap and digest as
/// their fixed digests.
#[verifier::opaque]
pub open spec fn compiled_polys_ok(
    b: CircuitBuilder,
    common: CommonCircuitData,
    prover: ProverOnlyCircuitData,
    verifier: VerifierOnlyCircuitData,
) -> bool {
    let bits = common.degree_bits as nat;
    let degree = pow2(bits) as int;
    let nr = b.config.num_routed_wires;
    let batch = prover.constants_sigmas_values;
    let cap = verifier.constants_sigmas_cap;
    &&& prover.subgroup@.len() == pow2(bits)
    &&& forall|j: int| 0 <= j < prover.subgroup@.len()
        ==> #[trigger] prover.subgroup@[j] == subgroup_element(bits, j as nat)
    &&& forall|i: int, j: int, a: int, c: int|
        #![trigger common.k_is@[i], common.k_is@[j], prover.subgroup@[a], prover.subgroup@[c]]
        0 <= i < nr && 0 <= j < nr && i != j && 0 <= a < degree && 0 <= c < degree
            ==> crate::field::f_mul(common.k_is@[i], prover.subgroup@[a])
                != crate::field::f_mul(common.k_is@[j], prover.subgroup@[c])
    &&& batch@.len() == common.num_constants + nr
    &&& forall|c: int| 0 <= c < batch@.len() ==> (#[trigger] batch@[c])@.len() == degree
    &&& prover.sigmas@.len() == degree
    &&& forall|row: int, c: int| #![trigger prover.sigmas@[row]@[c]]
        0 <= row < degree && 0 <= c < nr
        ==> prover.sigmas@[row]@[c] == batch@[common.num_constants + c]@[row]
    &&& batch_sigma_cells_ok(
        batch.deep_view(),
        common.num_constants as int,
        prover.representative_map@,
        nr as int,
        pow2(bits),
        bits,
    )
    &&& (b.gate_instances@.len() == 0 && b.operations@.len() == 0 && b.constants@.len() == 0
        && b.public_inputs@.len() == 0 && b.copy_constraints@.len() == 0)
        ==> forall|c: int, row: int| #![trigger batch@[common.num_constants + c]@[row]]
            0 <= c < nr && 0 <= row < degree
            ==> batch@[common.num_constants + c]@[row] == crate::field::f_mul(
                coset_shift(c as nat),
                subgroup_element(bits, row as nat),
            )
    &&& cap@.len() == pow2(b.config.fri_config.cap_height as nat)
    &&& prover.constants_sigmas_cap@ == cap@
    &&& cap_contents_ok(cap@, batch.deep_view())
    &&& digest_matches(common.circuit_digest, cap@, common.gates@)
}

/// The bookkeeping half: the placement map binds exactly the placed targets,
/// copy-constrained targets share a representative, the dependency index is
/// exact, and the description's lists ride through unchanged.
#[verifier::opaque]
pub open spec fn compiled_maps_ok(
    b: CircuitBuilder,
    common: CommonCircuitData,
    prover: ProverOnlyCircuitData,
) -> bool {
    let bits = common.degree_bits as nat;
    let degree = pow2(bits) as int;
    let nr = b.config.num_routed_wires;
    let nslots = nr * degree;
    &&& prover.representative_map@.len() == nslots
    &&& prover.target_wires@.len() == b.target_index
    &&& map_wires_ok(prover.target_wires@, nr, degree)
    &&& forall|i: int| 0 <= i < prover.target_wires@.len()
        ==> ((#[trigger] prover.target_wires@[i]) is Some <==> placed_index(b, i))
    &&& forall|k: int| 0 <= k < b.copy_constraints@.len() ==> {
        let sa = target_slot(
            prover.target_wires@,
            pow2(bits),
            (#[trigger] b.copy_constraints@[k]).a,
        );
        let sb = target_slot(prover.target_wires@, pow2(bits), b.copy_constraints@[k].b);
        0 <= sa < nslots && 0 <= sb < nslots
            && prover.representative_map@[sa] == prover.representative_map@[sb]
    }
    &&& prover.generator_indices_by_watches@.len() == nslots
    &&& generator_index_ok(
        prover.generator_indices_by_watches@,
        prover.generators@,
        prover.target_wires@,
        prover.representative_map@,
        pow2(bits),
    )
    &&& prover.generators == b.generators
    &&& prover.public_inputs == b.public_inputs
    &&& prover.marked_targets == b.marked_targets
    &&& prover.fft_root_table@.len() >= common.degree_bits + b.config.fri_config.rate_bits
    &&& prover.fft_root_table@.len() <= crate::field::TWO_ADICITY
}

/// Everything one compilation guarantees of its three artifacts, over the
/// consumed builder `b`: the shape of the public description, the fixed
/// polynomials with their cap and digest, and the placement and dependency
/// bookkeeping.
pub open spec fn compiled_ok(
    b: CircuitBuilder,
    common: CommonCircuitData,
    prover: ProverOnlyCircuitData,
    verifier: VerifierOnlyCircuitData,
) -> bool {
    &&& compiled_shape_ok(b, common)
    &&& compiled_polys_ok(b, common, prover, verifier)
    &&& compiled_maps_ok(b, common, prover)
}

/// The first slot at or after `j` whose representative equals `rep`, or -1;
/// the cyclic-successor scan, phrased over the representative map alone.
pub open spec fn rep_scan(rm: Seq<usize>, rep: int, j: int) -> int
    decreases rm.len() - j,
{
    if 0 <= j < rm.len() {
        if rm[j] == rep {
            j
        } else {
            rep_scan(rm, rep, j + 1)
        }
    } else {
        -1
    }
}

/// The next member of slot `i`'s class in ascending order, wrapping to the
/// first, read off the representative map.
pub open spec fn rep_next(rm: Seq<usize>, i: int) -> int {
    let after = rep_scan(rm, rm[i] as int, i + 1);
    if after >= 0 {
        after
    } else {
        rep_scan(rm, rm[i] as int, 0)
    }
}

/// The representative map determines the same scan as the forest.
proof fn lemma_rep_scan_agrees(rm: Seq<usize>, p: Seq<usize>, i: int, j: int)
    requires
        rm.len() == p.len(),
        forall|t: int| 0 <= t < rm.len() ==> #[trigger] rm[t] as int == root_of(p, t),
        0 <= i < p.len(),
        0 <= j,
    ensures
        rep_scan(rm, rm[i] as int, j) == crate::permutation::scan_from(p, root_of(p, i), j),
    decreases rm.len() - j,
{
    if 0 <= j < rm.len() {
        if rm[j] as int != rm[i] as int {
            lemma_rep_scan_agrees(rm, p, i, j + 1);
        }
    }
}

/// The representative map determines the same cyclic successor as the
/// forest.
proof fn lemma_rep_next_agrees(rm: Seq<usize>, p: Seq<usize>, i: int)
    requires
        rm.len() == p.len(),
        forall|t: int| 0 <= t < rm.len() ==> #[trigger] rm[t] as int == root_of(p, t),
        0 <= i < p.len(),
    ensures
        rep_next(rm, i) == crate::permutation::next_in_class(p, i),
{
    lemma_rep_scan_agrees(rm, p, i, i + 1);
    lemma_rep_scan_agrees(rm, p, i, 0);
}

/// Each sigma column holds, cell by cell, the domain element of the cell's
/// cyclic successor under the representative map: the value at slot
/// `c * degree + row` is `k_c' * omega^row'` for the successor slot
/// `(c', row')`.
#[verifier::opaque]
pub open spec fn sigma_cells_ok(
    sigma: Seq<Seq<u64>>,
    rm: Seq<usize>,
    nr: int,
    degree: nat,
    bits: nat,
) -> bool {
    forall|c: int, row: int| #![trigger sigma[c][row]]
        0 <= c < nr && 0 <= row < degree ==> {
            let nxt = rep_next(rm, c * degree + row);
            sigma[c][row] == crate::field::f_mul(
                coset_shift((nxt / degree as int) as nat),
                subgroup_element(bits, (nxt % degree as int) as nat),
            )
        }
}

/// The sigma columns of the committed batch hold, cell by cell, the domain
/// element of the cell's cyclic successor under the representative map.
#[verifier::opaque]
pub open spec fn batch_sigma_cells_ok(
    batch: Seq<Seq<u64>>,
    nc: int,
    rm: Seq<usize>,
    nr: int,
    degree: nat,
    bits: nat,
) -> bool {
    forall|c: int, row: int| #![trigger batch[nc + c][row]]
        0 <= c < nr && 0 <= row < degree ==> {
            let nxt = rep_next(rm, c * degree + row);
            batch[nc + c][row] == crate::field::f_mul(
                coset_shift((nxt / degree as int) as nat),
                subgroup_element(bits, (nxt % degree as int) as nat),
            )
        }
}

/// The only failures a compilation may report, each tied to its cause: an
/// unplaced referenced target, a machine or two-adicity limit, a quotient
/// range whose upper end falls below the description's largest gate degree
/// plus the selector length (which never exceeds 33, the padded grid having
/// at most 2^32 rows), or degenerate cosets.
pub open spec fn build_errors_ok(b: CircuitBuilder, e: CircuitError) -> bool {
    ||| e == CircuitError::UnplacedTarget && has_unplaced_reference(b)
    ||| e == CircuitError::DegreeTooLarge && degree_pressure(b)
    ||| e == CircuitError::EmptyQuotientRange
        && quotient_hi(b.config) < description_degree(b) + 33
    ||| e == CircuitError::CosetCollision && exists|bits: nat|
        is_min_degree_bits(b, bits) && cosets_degenerate(b.config.num_routed_wires, bits)
}

/// The prover's view comes from one full compilation.
pub open spec fn prover_data_ok(b: CircuitBuilder, p: ProverCircuitData) -> bool {
    exists|v: VerifierOnlyCircuitData| compiled_ok(b, p.common, p.prover_only, v)
}

/// The verifier's view comes from one full compilation.
pub open spec fn verifier_data_ok(b: CircuitBuilder, v: VerifierCircuitData) -> bool {
    exists|p: ProverOnlyCircuitData| compiled_ok(b, v.common, p, v.verifier_only)
}

pub proof fn lemma_max_op_degree(s: Seq<Operation>, k: int)
    requires
        0 <= k < s.len(),
    ensures
        s[k].gate.degree as int <= max_op_degree(s),
    decreases s.len(),
{
    if k < s.len() - 1 {
        assert(s.drop_last()[k] == s[k]);
        lemma_max_op_degree(s.drop_last(), k);
    }
}

/// The number of rows the builder's description occupies before padding:
/// direct gate rows, one row per operation, the constant rows, and at least
/// one public-input row.
pub open spec fn user_rows(b: CircuitBuilder) -> int {
    let nr = b.config.num_routed_wires as int;
    let crows = ceil_div(b.constants@.len() as int, nr);
    let prows = ceil_div(b.public_inputs@.len() as int, nr);
    b.gate_instances@.len() + b.operations@.len() + crows + (if prows == 0 { 1int } else { prows })
}

/// Whether the registry lists `g`.
pub open spec fn gate_listed(gs: Seq<PrefixedGate>, g: GateType) -> bool {
    exists|i: int| 0 <= i < gs.len() && (#[trigger] gs[i]).gate == g
}

/// Whether some row uses gate `g`.
pub open spec fn gate_from_instances(instances: Seq<GateInstance>, g: GateType) -> bool {
    exists|t: int| 0 <= t < instances.len() && (#[trigger] instances[t]).gate == g
}

/// The cap holds, slot by slot, the digest of the flattened batch under the
/// slot's seed.
#[verifier::opaque]
pub open spec fn cap_contents_ok(cap: Seq<HashOut>, batch: Seq<Seq<u64>>) -> bool {
    forall|i: int| 0 <= i < cap.len()
        ==> #[trigger] cap[i] == hash_out_of(i as nat, flatten_upto(batch, batch.len() as int))
}

/// The circuit digest is the digest of the flattened cap followed by the
/// encoded registry.
#[verifier::opaque]
pub open spec fn digest_matches(digest: HashOut, cap: Seq<HashOut>, gates: Seq<PrefixedGate>) -> bool {
    digest == hash_out_of(
        0,
        cap_flat_upto(cap, cap.len() as int) + gates_enc_upto(gates, gates.len() as int),
    )
}

/// The dependency index lists, per representative and in ascending order
/// without repeats, exactly the generators watching a target whose wire
/// resolves to that representative.
#[verifier::opaque]
pub open spec fn generator_index_ok(
    buckets: Seq<Vec<usize>>,
    gens: Seq<Generator>,
    map: Seq<Option<Wire>>,
    repmap: Seq<usize>,
    degree: nat,
) -> bool {
    &&& forall|rep: int, p1: int, p2: int| #![trigger buckets[rep]@[p1], buckets[rep]@[p2]]
        0 <= rep < buckets.len() && 0 <= p1 < p2 < buckets[rep]@.len()
        ==> buckets[rep]@[p1] < buckets[rep]@[p2]
    &&& forall|rep: int, p: int| #![trigger buckets[rep]@[p]]
        0 <= rep < buckets.len() && 0 <= p < buckets[rep]@.len()
        ==> buckets[rep]@[p] < gens.len()
            && generator_watches_rep(gens[buckets[rep]@[p] as int], map, repmap, degree, rep)
    &&& forall|rep: int, gi: int| #![trigger gens[gi], buckets[rep]]
        0 <= rep < buckets.len() && 0 <= gi < gens.len()
            && generator_watches_rep(gens[gi], map, repmap, degree, rep)
        ==> buckets[rep]@.contains(gi as usize)
}

/// What the registry phase guarantees: selector codes of one length,
/// pairwise distinct; the maxima bound every registry gate and are attained;
/// the registry lists exactly the gates the rows use, in the stable strict
/// order.
#[verifier::opaque]
pub open spec fn registry_summary(
    instances: Seq<GateInstance>,
    prefixed: Seq<PrefixedGate>,
    code_len: usize,
    max_filtered: usize,
    num_constants: usize,
    num_gate_constraints: usize,
) -> bool {
    &&& code_len <= 33
    &&& code_len <= num_constants
    &&& prefixed.len() >= 1
    &&& forall|i: int| 0 <= i < prefixed.len()
        ==> (#[trigger] prefixed[i]).prefix@.len() == code_len
    &&& forall|i: int, j: int| 0 <= i < j < prefixed.len()
        ==> (#[trigger] prefixed[i]).prefix@ != (#[trigger] prefixed[j]).prefix@
    &&& forall|i: int| 0 <= i < prefixed.len()
        ==> max_filtered >= (#[trigger] prefixed[i]).gate.degree + code_len
            && num_constants >= code_len + prefixed[i].gate.num_constants
            && num_gate_constraints >= prefixed[i].gate.num_constraints
    &&& max_filtered <= crate::gates::MAX_GATE_DEGREE + code_len
    &&& (max_filtered == 0 || exists|i: int| 0 <= i < prefixed.len()
        && max_filtered == (#[trigger] prefixed[i]).gate.degree + code_len)
    &&& (num_gate_constraints == 0 || exists|i: int| 0 <= i < prefixed.len()
        && num_gate_constraints == (#[trigger] prefixed[i]).gate.num_constraints)
    &&& forall|t: int| 0 <= t < instances.len()
        ==> gate_listed(prefixed, (#[trigger] instances[t]).gate)
    &&& forall|g: int| 0 <= g < prefixed.len()
        ==> gate_from_instances(instances, (#[trigger] prefixed[g]).gate)
    &&& forall|i: int, j: int| 0 <= i < j < prefixed.len()
        ==> crate::gates::gate_le((#[trigger] prefixed[i]).gate, (#[trigger] prefixed[j]).gate)
            && prefixed[i].gate != prefixed[j].gate
}

/// The first position of `g` in the registry.
pub open spec fn index_of_gate(gs: Seq<PrefixedGate>, g: GateType) -> int
    decreases gs.len(),
{
    if gs.len() == 0 {
        -1
    } else if gs[0].gate == g {
        0
    } else {
        1 + index_of_gate(gs.drop_first(), g)
    }
}

proof fn lemma_index_of_gate(gs: Seq<PrefixedGate>, g: GateType, i: int)
    requires
        0 <= i < gs.len(),
        gs[i].gate == g,
        forall|t: int| 0 <= t < i ==> (#[trigger] gs[t]).gate != g,
    ensures
        index_of_gate(gs, g) == i,
    decreases i,
{
    if i > 0 {
        assert forall|t: int| 0 <= t < i - 1 implies (#[trigger] gs.drop_first()[t]).gate != g by {
            assert(gs.drop_first()[t] == gs[t + 1]);
        }
        assert(gs.drop_first()[i - 1] == gs[i]);
        lemma_index_of_gate(gs.drop_first(), g, i - 1);
    }
}

/// The first position of `g` in the registry, found by scanning.
fn find_gate_index(gs: &Vec<PrefixedGate>, g: GateType) -> (r: usize)
    requires
        gate_listed(gs@, g),
    ensures
        r < gs@.len(),
        gs@[r as int].gate == g,
        r as int == index_of_gate(gs@, g),
{
    let n = gs.len();
    let mut i: usize = 0;
    while i < n
        invariant
            i <= n,
            n == gs@.len(),
            gate_listed(gs@, g),
            forall|t: int| 0 <= t < i ==> (#[trigger] gs@[t]).gate != g,
        decreases n - i,
    {
        if gs[i].gate == g {
            proof {
                lemma_index_of_gate(gs@, g, i as int);
            }
            return i;
        }
        i = i + 1;
    }
    proof {
        let w = choose|w: int| 0 <= w < gs@.len() && (#[trigger] gs@[w]).gate == g;
        assert(gs@[w].gate != g);
    }
    0
}

/// One cell of the constant polynomials: the selector code of the row's gate
/// first, then the row's constant parameters, then zero padding.
pub open spec fn constant_cell(
    instances: Seq<GateInstance>,
    gs: Seq<PrefixedGate>,
    code_len: nat,
    c: int,
    row: int,
) -> u64 {
    let inst = instances[row];
    let gi = index_of_gate(gs, inst.gate);
    if c < code_len {
        if gs[gi].prefix@[c] {
            1u64
        } else {
            0u64
        }
    } else if c - code_len < inst.constants@.len() {
        inst.constants@[c - code_len]
    } else {
        0u64
    }
}

/// The constant polynomials, column-major.
#[verifier::loop_isolation(false)]
fn constant_polys(
    instances: &Vec<GateInstance>,
    gs: &Vec<PrefixedGate>,
    code_len: usize,
    num_constants: usize,
) -> (r: Vec<Vec<u64>>)
    requires
        forall|k: int| 0 <= k < instances@.len()
            ==> gate_listed(gs@, (#[trigger] instances@[k]).gate),
        forall|i: int| 0 <= i < gs@.len() ==> (#[trigger] gs@[i]).prefix@.len() == code_len,
        code_len <= num_constants,
    ensures
        r@.len() == num_constants,
        forall|c: int| 0 <= c < num_constants ==> (#[trigger] r@[c])@.len() == instances@.len(),
        forall|c: int, row: int| #![trigger r@[c]@[row]]
            0 <= c < num_constants && 0 <= row < instances@.len()
            ==> r@[c]@[row] == constant_cell(instances@, gs@, code_len as nat, c, row),
{
    let nrows = instances.len();
    let mut out: Vec<Vec<u64>> = Vec::new();
    let mut c: usize = 0;
    while c < num_constants
        invariant
            c <= num_constants,
            out@.len() == c,
            forall|t: int| 0 <= t < c ==> (#[trigger] out@[t])@.len() == nrows,
            forall|t: int, row: int| #![trigger out@[t]@[row]]
                0 <= t < c && 0 <= row < nrows
                ==> out@[t]@[row] == constant_cell(instances@, gs@, code_len as nat, t, row),
        decreases num_constants - c,
    {
        let mut column: Vec<u64> = Vec::new();
        let mut row: usize = 0;
        while row < nrows
            invariant
                row <= nrows,
                c < num_constants,
                column@.len() == row,
                forall|t: int| 0 <= t < row
                    ==> #[trigger] column@[t]
                        == constant_cell(instances@, gs@, code_len as nat, c as int, t),
            decreases nrows - row,
        {
            let inst_gate = instances[row].gate;
            let gi = find_gate_index(gs, inst_gate);
            let cell: u64 = if c < code_len {
                if gs[gi].prefix[c] {
                    1
                } else {
                    0
                }
            } else if c - code_len < instances[row].constants.len() {
                instances[row].constants[c - code_len]
            } else {
                0
            };
            column.push(cell);
            row = row + 1;
        }
        out.push(column);
        c = c + 1;
    }
    out
}

/// The concatenation of the first `i` value columns.
pub open spec fn flatten_upto(s: Seq<Seq<u64>>, i: int) -> Seq<u64>
    decreases i,
{
    if i <= 0 {
        Seq::empty()
    } else {
        flatten_upto(s, i - 1) + s[i - 1]
    }
}

/// Flattens the polynomial batch, column after column.
#[verifier::loop_isolation(false)]
fn flatten_cols(polys: &Vec<Vec<u64>>) -> (r: Vec<u64>)
    ensures
        r@ == flatten_upto(polys.deep_view(), polys@.len() as int),
{
    let n = polys.len();
    let mut out: Vec<u64> = Vec::new();
    let mut i: usize = 0;
    proof {
        assert(out@ =~= flatten_upto(polys.deep_view(), 0));
    }
    while i < n
        invariant
            i <= n,
            n == polys@.len(),
            out@ == flatten_upto(polys.deep_view(), i as int),
        decreases n - i,
    {
        let m = polys[i].len();
        let mut j: usize = 0;
        while j < m
            invariant
                j <= m,
                i < n,
                n == polys@.len(),
                m == polys@[i as int]@.len(),
                out@ == flatten_upto(polys.deep_view(), i as int)
                    + polys.deep_view()[i as int].take(j as int),
            decreases m - j,
        {
            out.push(polys[i][j]);
            proof {
                assert(polys.deep_view()[i as int].take(j as int + 1)
                    =~= polys.deep_view()[i as int].take(j as int).push(polys@[i as int]@[j as int]));
                assert(flatten_upto(polys.deep_view(), i as int)
                    + polys.deep_view()[i as int].take(j as int + 1)
                    =~= (flatten_upto(polys.deep_view(), i as int)
                        + polys.deep_view()[i as int].take(j as int)).push(
                    polys@[i as int]@[j as int]));
            }
            j = j + 1;
        }
        proof {
            assert(polys.deep_view()[i as int].take(m as int) =~= polys.deep_view()[i as int]);
        }
        i = i + 1;
    }
    out
}

/// The four lanes of each cap entry, in order.
pub open spec fn cap_flat_upto(s: Seq<HashOut>, i: int) -> Seq<u64>
    decreases i,
{
    if i <= 0 {
        Seq::empty()
    } else {
        cap_flat_upto(s, i - 1) + seq![s[i - 1].e0, s[i - 1].e1, s[i - 1].e2, s[i - 1].e3]
    }
}

/// Flattens a cap to its field elements.
#[verifier::loop_isolation(false)]
fn cap_flatten(cap: &Vec<HashOut>) -> (r: Vec<u64>)
    ensures
        r@ == cap_flat_upto(cap@, cap@.len() as int),
{
    let n = cap.len();
    let mut out: Vec<u64> = Vec::new();
    let mut i: usize = 0;
    proof {
        assert(out@ =~= cap_flat_upto(cap@, 0));
    }
    while i < n
        invariant
            i <= n,
            n == cap@.len(),
            out@ == cap_flat_upto(cap@, i as int),
        decreases n - i,
    {
        let h = cap[i];
        out.push(h.e0);
        out.push(h.e1);
        out.push(h.e2);
        out.push(h.e3);
        proof {
            assert(cap_flat_upto(cap@, i as int + 1) =~= cap_flat_upto(cap@, i as int).push(
                cap@[i as int].e0).push(cap@[i as int].e1).push(cap@[i as int].e2).push(
                cap@[i as int].e3));
        }
        i = i + 1;
    }
    out
}

/// The selector bits of a prefix as field elements.
pub open spec fn bits01(s: Seq<bool>) -> Seq<u64> {
    Seq::new(s.len(), |t: int| if s[t] { 1u64 } else { 0u64 })
}

/// The encoding of the first `i` prefixed gates: each gate's shape fields
/// then its selector code.
pub open spec fn gates_enc_upto(s: Seq<PrefixedGate>, i: int) -> Seq<u64>
    decreases i,
{
    if i <= 0 {
        Seq::empty()
    } else {
        let g = s[i - 1];
        gates_enc_upto(s, i - 1) + seq![
            g.gate.kind,
            g.gate.num_wires as u64,
            g.gate.num_constants as u64,
            g.gate.num_constraints as u64,
            g.gate.degree as u64,
        ] + bits01(g.prefix@)
    }
}

/// Encodes the registry, including each gate's selector code, for the
/// circuit digest.
#[verifier::loop_isolation(false)]
fn encode_gates(gs: &Vec<PrefixedGate>) -> (r: Vec<u64>)
    ensures
        r@ == gates_enc_upto(gs@, gs@.len() as int),
{
    let n = gs.len();
    let mut out: Vec<u64> = Vec::new();
    let mut i: usize = 0;
    proof {
        assert(out@ =~= gates_enc_upto(gs@, 0));
    }
    while i < n
        invariant
            i <= n,
            n == gs@.len(),
            out@ == gates_enc_upto(gs@, i as int),
        decreases n - i,
    {
        let g = &gs[i];
        out.push(g.gate.kind);
        out.push(g.gate.num_wires as u64);
        out.push(g.gate.num_constants as u64);
        out.push(g.gate.num_constraints as u64);
        out.push(g.gate.degree as u64);
        let m = g.prefix.len();
        let ghost mid = out@;
        let mut j: usize = 0;
        while j < m
            invariant
                j <= m,
                i < n,
                m == gs@[i as int].prefix@.len(),
                out@ == mid + bits01(gs@[i as int].prefix@).take(j as int),
            decreases m - j,
        {
            let bit: u64 = if gs[i].prefix[j] {
                1
            } else {
                0
            };
            out.push(bit);
            proof {
                assert(bits01(gs@[i as int].prefix@).take(j as int + 1)
                    =~= bits01(gs@[i as int].prefix@).take(j as int).push(
                    bits01(gs@[i as int].prefix@)[j as int]));
                assert(mid + bits01(gs@[i as int].prefix@).take(j as int + 1)
                    =~= (mid + bits01(gs@[i as int].prefix@).take(j as int)).push(
                    bits01(gs@[i as int].prefix@)[j as int]));
            }
            j = j + 1;
        }
        proof {
            assert(bits01(gs@[i as int].prefix@).take(m as int)
                =~= bits01(gs@[i as int].prefix@));
            assert(out@ =~= gates_enc_upto(gs@, i as int + 1));
        }
        i = i + 1;
    }
    out
}

/// The concatenation of two value vectors.
fn concat_u64(a: Vec<u64>, b: &Vec<u64>) -> (r: Vec<u64>)
    ensures
        r@ == a@ + b@,
{
    let mut out = a;
    let ghost base = out@;
    let mut i: usize = 0;
    while i < b.len()
        invariant
            i <= b@.len(),
            out@ == base + b@.take(i as int),
        decreases b@.len() - i,
    {
        out.push(b[i]);
        proof {
            assert(base + b@.take(i as int + 1) =~= (base + b@.take(i as int)).push(b@[i as int]));
        }
        i = i + 1;
    }
    proof {
        assert(base + b@.take(b@.len() as int) =~= base + b@);
    }
    out
}

/// The row-major transpose of column-major polynomials.
#[verifier::loop_isolation(false)]
fn transpose_cols(cols: &Vec<Vec<u64>>, degree: usize) -> (r: Vec<Vec<u64>>)
    requires
        forall|c: int| 0 <= c < cols@.len() ==> (#[trigger] cols@[c])@.len() == degree,
    ensures
        r@.len() == degree,
        forall|row: int| 0 <= row < degree ==> (#[trigger] r@[row])@.len() == cols@.len(),
        forall|row: int, c: int| #![trigger r@[row]@[c]]
            0 <= row < degree && 0 <= c < cols@.len()
            ==> r@[row]@[c] == cols@[c]@[row],
{
    let n = cols.len();
    let mut out: Vec<Vec<u64>> = Vec::new();
    let mut row: usize = 0;
    while row < degree
        invariant
            row <= degree,
            out@.len() == row,
            forall|t: int| 0 <= t < row ==> (#[trigger] out@[t])@.len() == n,
            forall|t: int, c: int| #![trigger out@[t]@[c]]
                0 <= t < row && 0 <= c < n
                ==> out@[t]@[c] == cols@[c]@[t],
        decreases degree - row,
    {
        let mut line: Vec<u64> = Vec::new();
        let mut c: usize = 0;
        while c < n
            invariant
                c <= n,
                row < degree,
                line@.len() == c,
                forall|t: int| 0 <= t < c ==> line@[t] == cols@[t]@[row as int],
            decreases n - c,
        {
            line.push(cols[c][row]);
            c = c + 1;
        }
        out.push(line);
        row = row + 1;
    }
    out
}

/// The wire slot of a target under a placement map, or -1 when the target
/// was never placed.
pub open spec fn target_slot(map: Seq<Option<Wire>>, degree: nat, t: Target) -> int {
    if t.index < map.len() && map[t.index as int] is Some {
        let w = map[t.index as int]->Some_0;
        w.col * degree + w.row
    } else {
        -1
    }
}

/// Whether some watch of the generator resolves to slot representative
/// `rep`.
pub open spec fn generator_watches_rep(
    g: Generator,
    map: Seq<Option<Wire>>,
    repmap: Seq<usize>,
    degree: nat,
    rep: int,
) -> bool {
    exists|w: int| 0 <= w < g.watches@.len() && {
        let s = target_slot(map, degree, #[trigger] g.watches@[w]);
        0 <= s < repmap.len() && repmap[s] == rep
    }
}

/// Whether some watch of the generator resolves to `rep`; scanning form.
#[verifier::loop_isolation(false)]
fn generator_watches_rep_exec(
    g: &Generator,
    map: &Vec<Option<Wire>>,
    repmap: &Vec<usize>,
    degree: usize,
    rep: usize,
) -> (r: bool)
    requires
        degree >= 1,
    ensures
        r == generator_watches_rep(*g, map@, repmap@, degree as nat, rep as int),
{
    let n = g.watches.len();
    let repmap_len = repmap.len();
    let mut w: usize = 0;
    while w < n
        invariant
            w <= n,
            n == g.watches@.len(),
            repmap_len == repmap@.len(),
            forall|t: int| 0 <= t < w ==> !{
                let s = target_slot(map@, degree as nat, #[trigger] g.watches@[t]);
                0 <= s < repmap@.len() && repmap@[s] == rep as int
            },
        decreases n - w,
    {
        let t = g.watches[w];
        if t.index < map.len() {
            match map[t.index] {
                Some(wire) => {
                    if wire.col <= usize::MAX / degree {
                        proof {
                            assert((wire.col as int) * (degree as int) <= usize::MAX as int)
                                by (nonlinear_arith)
                                requires (wire.col as int)
                                    <= (usize::MAX as int) / (degree as int) && degree >= 1
                                    && 0 <= wire.col as int;
                        }
                        let base = wire.col * degree;
                        if base <= usize::MAX - wire.row {
                            let slot = base + wire.row;
                            if slot < repmap_len && repmap[slot] == rep {
                                return true;
                            }
                        } else {
                            proof {
                                assert(target_slot(map@, degree as nat, g.watches@[w as int])
                                    > repmap@.len());
                            }
                        }
                    } else {
                        proof {
                            assert((wire.col as int) * (degree as int)
                                > (usize::MAX as int)) by (nonlinear_arith)
                                requires (wire.col as int) > (usize::MAX as int) / (degree as int)
                                    && degree >= 1;
                            assert(target_slot(map@, degree as nat, g.watches@[w as int])
                                > repmap@.len());
                        }
                    }
                },
                None => {},
            }
        }
        w = w + 1;
    }
    false
}

/// The generator dependency index: for each representative, the ascending
/// list of generators watching a target whose wire resolves to it.
#[verifier::loop_isolation(false)]
fn generator_buckets(
    gens: &Vec<Generator>,
    map: &Vec<Option<Wire>>,
    repmap: &Vec<usize>,
    degree: usize,
    n_slots: usize,
) -> (r: Vec<Vec<usize>>)
    requires
        degree >= 1,
    ensures
        r@.len() == n_slots,
        forall|rep: int, p1: int, p2: int| #![trigger r@[rep]@[p1], r@[rep]@[p2]]
            0 <= rep < n_slots && 0 <= p1 < p2 < r@[rep]@.len()
            ==> r@[rep]@[p1] < r@[rep]@[p2],
        forall|rep: int, p: int| #![trigger r@[rep]@[p]]
            0 <= rep < n_slots && 0 <= p < r@[rep]@.len()
            ==> r@[rep]@[p] < gens@.len()
                && generator_watches_rep(gens@[r@[rep]@[p] as int], map@, repmap@,
                    degree as nat, rep),
        forall|rep: int, gi: int| #![trigger gens@[gi], r@[rep]]
            0 <= rep < n_slots && 0 <= gi < gens@.len()
                && generator_watches_rep(gens@[gi], map@, repmap@, degree as nat, rep)
            ==> r@[rep]@.contains(gi as usize),
{
    let mut out: Vec<Vec<usize>> = Vec::new();
    let mut rep: usize = 0;
    while rep < n_slots
        invariant
            rep <= n_slots,
            out@.len() == rep,
            forall|s: int, p1: int, p2: int| #![trigger out@[s]@[p1], out@[s]@[p2]]
                0 <= s < rep && 0 <= p1 < p2 < out@[s]@.len()
                ==> out@[s]@[p1] < out@[s]@[p2],
            forall|s: int, p: int| #![trigger out@[s]@[p]]
                0 <= s < rep && 0 <= p < out@[s]@.len()
                ==> out@[s]@[p] < gens@.len()
                    && generator_watches_rep(gens@[out@[s]@[p] as int], map@, repmap@,
                        degree as nat, s),
            forall|s: int, gi: int| #![trigger gens@[gi], out@[s]]
                0 <= s < rep && 0 <= gi < gens@.len()
                    && generator_watches_rep(gens@[gi], map@, repmap@, degree as nat, s)
                ==> out@[s]@.contains(gi as usize),
        decreases n_slots - rep,
    {
        let mut bucket: Vec<usize> = Vec::new();
        let mut gi: usize = 0;
        while gi < gens.len()
            invariant
                gi <= gens@.len(),
                rep < n_slots,
                forall|p1: int, p2: int| #![trigger bucket@[p1], bucket@[p2]]
                    0 <= p1 < p2 < bucket@.len() ==> bucket@[p1] < bucket@[p2],
                forall|p: int| 0 <= p < bucket@.len()
                    ==> #[trigger] bucket@[p] < gi
                        && generator_watches_rep(gens@[bucket@[p] as int], map@, repmap@,
                            degree as nat, rep as int),
                forall|g: int| 0 <= g < gi
                    && generator_watches_rep(#[trigger] gens@[g], map@, repmap@,
                        degree as nat, rep as int)
                    ==> bucket@.contains(g as usize),
            decreases gens@.len() - gi,
        {
            let ghost old_bucket = bucket@;
            if generator_watches_rep_exec(&gens[gi], map, repmap, degree, rep) {
                bucket.push(gi);
                proof {
                    assert forall|g: int| 0 <= g < gi + 1
                        && generator_watches_rep(#[trigger] gens@[g], map@, repmap@,
                            degree as nat, rep as int)
                        implies bucket@.contains(g as usize) by {
                        if g == gi {
                            assert(bucket@[bucket@.len() - 1] == gi);
                        } else {
                            assert(old_bucket.contains(g as usize));
                            let p = choose|p: int| 0 <= p < old_bucket.len()
                                && old_bucket[p] == g as usize;
                            assert(bucket@[p] == g as usize);
                        }
                    }
                }
            } else {
                proof {
                    assert forall|g: int| 0 <= g < gi + 1
                        && generator_watches_rep(#[trigger] gens@[g], map@, repmap@,
                            degree as nat, rep as int)
                        implies bucket@.contains(g as usize) by {
                        assert(g != gi);
                    }
                }
            }
            gi = gi + 1;
        }
        out.push(bucket);
        rep = rep + 1;
    }
    out
}

} // verus!

verus! {

/// Every placed wire lies on a routed column of an existing row.
pub open spec fn map_wires_ok(map: Seq<Option<Wire>>, nr: usize, rows: int) -> bool {
    forall|i: int| 0 <= i < map.len() && (#[trigger] map[i]) is Some
        ==> map[i]->Some_0.col < nr && map[i]->Some_0.row < rows
}

/// Every recorded duplicate-placement edge joins two such wires.
pub open spec fn edges_ok(edges: Seq<(Wire, Wire)>, nr: usize, rows: int) -> bool {
    forall|k: int| 0 <= k < edges.len() ==> {
        let e = #[trigger] edges[k];
        e.0.col < nr && e.0.row < rows && e.1.col < nr && e.1.row < rows
    }
}

/// Well-formed rows: every instance fits the configuration and carries
/// canonical constants of its declared arity.
pub open spec fn instances_ok(instances: Seq<GateInstance>, num_wires: usize) -> bool {
    forall|t: int| 0 <= t < instances.len()
        ==> (#[trigger] instances[t]).gate.fits(num_wires)
            && instances[t].constants@.len() == instances[t].gate.num_constants
            && (forall|c: int| 0 <= c < instances[t].constants@.len()
                ==> (#[trigger] instances[t].constants@[c]) < GOLDILOCKS_ORDER)
}

/// Binds a target to a wire. A first placement records the wire; placing an
/// already-placed target records an equality edge between the two wires
/// instead.
fn place_target(
    map: &mut Vec<Option<Wire>>,
    edges: &mut Vec<(Wire, Wire)>,
    t: Target,
    w: Wire,
)
    requires
        t.index < old(map)@.len(),
    ensures
        final(map)@.len() == old(map)@.len(),
        old(map)@[t.index as int] is None ==> final(map)@
            == old(map)@.update(t.index as int, Some(w)) && final(edges)@ == old(edges)@,
        old(map)@[t.index as int] is Some ==> final(map)@ == old(map)@
            && final(edges)@ == old(edges)@.push((old(map)@[t.index as int]->Some_0, w)),
{
    let existing = map[t.index];
    match existing {
        None => {
            map.set(t.index, Some(w));
        },
        Some(prev) => {
            edges.push((prev, w));
        },
    }
}

/// Materializes the description into gate rows and target placements: the
/// direct rows first, then one row per operation with its targets on the
/// leading routed wires, then the rows of constant slots, then at least one
/// public-input row. The placement map binds exactly the targets the
/// description places.
#[verifier::loop_isolation(false)]
#[verifier::rlimit(100)]
fn materialize_rows(
    config: CircuitConfig,
    base: Vec<GateInstance>,
    operations: &Vec<Operation>,
    constants: &Vec<(u64, Target)>,
    public_inputs: &Vec<Target>,
    target_index: usize,
) -> (r: Result<(Vec<GateInstance>, Vec<Option<Wire>>, Vec<(Wire, Wire)>), CircuitError>)
    requires
        config.structure_ok(),
        instances_ok(base@, config.num_wires),
        forall|k: int| 0 <= k < operations@.len()
            ==> op_wf(#[trigger] operations@[k], config, target_index),
        forall|k: int| 0 <= k < constants@.len()
            ==> (#[trigger] constants@[k]).1.index < target_index
                && constants@[k].0 < GOLDILOCKS_ORDER,
    ensures
        match r {
            Ok((instances, map, edges)) => {
                let nr = config.num_routed_wires as int;
                &&& instances@.len() as int == base@.len() + operations@.len()
                    + ceil_div(constants@.len() as int, nr)
                    + {
                    let prows = ceil_div(public_inputs@.len() as int, nr);
                    if prows == 0 { 1int } else { prows }
                }
                &&& instances@.len() >= 1
                &&& instances_ok(instances@, config.num_wires)
                &&& forall|k: int| 0 <= k < base@.len()
                    ==> #[trigger] instances@[k] == base@[k]
                &&& forall|k: int| 0 <= k < operations@.len()
                    ==> (#[trigger] instances@[base@.len() + k]).gate == operations@[k].gate
                &&& forall|t: int| 0 <= t < instances@.len()
                    ==> (#[trigger] instances@[t]).gate.degree as int
                        <= desc_degree_parts(base@, operations@)
                &&& map@.len() == target_index
                &&& map_wires_ok(map@, config.num_routed_wires, instances@.len() as int)
                &&& edges_ok(edges@, config.num_routed_wires, instances@.len() as int)
                &&& forall|i: int| 0 <= i < map@.len()
                    && placed_index_parts(operations@, constants@, public_inputs@, i)
                    ==> (#[trigger] map@[i]) is Some
                &&& forall|i: int| 0 <= i < map@.len() && (#[trigger] map@[i]) is Some
                    ==> placed_index_parts(operations@, constants@, public_inputs@, i)
                &&& (base@.len() == 0 && operations@.len() == 0 && constants@.len() == 0
                    && public_inputs@.len() == 0) ==> edges@.len() == 0
            },
            Err(e) => {
                ||| e == CircuitError::DegreeTooLarge
                    && constants@.len() + config.num_routed_wires > usize::MAX
                ||| e == CircuitError::UnplacedTarget && exists|k: int|
                    0 <= k < public_inputs@.len()
                        && (#[trigger] public_inputs@[k]).index >= target_index
            },
        },
{
    let nr = config.num_routed_wires;
    let ghost dd = desc_degree_parts(base@, operations@);
    let mut instances = base;
    proof {
        assert forall|t: int| 0 <= t < instances@.len()
            implies (#[trigger] instances@[t]).gate.degree as int <= dd by {
            lemma_max_instance_degree(instances@, t);
        }
    }
    let mut target_map: Vec<Option<Wire>> = Vec::new();
    let mut ti: usize = 0;
    while ti < target_index
        invariant
            ti <= target_index,
            target_map@.len() == ti,
            forall|i: int| 0 <= i < ti ==> (#[trigger] target_map@[i]) is None,
        decreases target_index - ti,
    {
        target_map.push(None);
        ti = ti + 1;
    }
    let mut edges: Vec<(Wire, Wire)> = Vec::new();

    // One row per operation.
    let base_rows = instances.len();
    let mut k: usize = 0;
    while k < operations.len()
        invariant
            k <= operations@.len(),
            instances@.len() == base_rows + k,
            forall|t: int| 0 <= t < base_rows ==> #[trigger] instances@[t] == base@[t],
            forall|t: int| 0 <= t < k
                ==> (#[trigger] instances@[base_rows + t]).gate == operations@[t].gate,
            forall|t: int| 0 <= t < instances@.len()
                ==> (#[trigger] instances@[t]).gate.degree as int <= dd,
            target_map@.len() == target_index,
            map_wires_ok(target_map@, nr, instances@.len() as int),
            edges_ok(edges@, nr, instances@.len() as int),
            instances_ok(instances@, config.num_wires),
            forall|i: int| 0 <= i < target_map@.len()
                && placed_in_ops_prefix(operations@, k as int, i)
                ==> (#[trigger] target_map@[i]) is Some,
            forall|i: int| 0 <= i < target_map@.len() && (#[trigger] target_map@[i]) is Some
                ==> placed_in_ops_prefix(operations@, operations@.len() as int, i),
            operations@.len() == 0 ==> edges@.len() == 0,
        decreases operations@.len() - k,
    {
        let row = instances.len();
        let op = &operations[k];
        proof {
            lemma_max_op_degree(operations@, k as int);
        }
        instances.push(GateInstance { gate: op.gate, constants: copy_u64s(&op.constants) });
        let mut w: usize = 0;
        while w < op.targets.len()
            invariant
                w <= op.targets@.len(),
                row < instances@.len(),
                target_map@.len() == target_index,
                map_wires_ok(target_map@, nr, instances@.len() as int),
                edges_ok(edges@, nr, instances@.len() as int),
                forall|i: int| 0 <= i < target_map@.len()
                    && (placed_in_ops_prefix(operations@, k as int, i) || exists|w2: int|
                        0 <= w2 < w && (#[trigger] operations@[k as int].targets@[w2]).index == i)
                    ==> (#[trigger] target_map@[i]) is Some,
                forall|i: int| 0 <= i < target_map@.len() && (#[trigger] target_map@[i]) is Some
                    ==> placed_in_ops_prefix(operations@, operations@.len() as int, i),
                operations@.len() == 0 ==> edges@.len() == 0,
            decreases op.targets@.len() - w,
        {
            place_target(&mut target_map, &mut edges, op.targets[w], Wire { row, col: w });
            w = w + 1;
        }
        proof {
            assert forall|i: int| 0 <= i < target_map@.len()
                && placed_in_ops_prefix(operations@, k as int + 1, i)
                implies (#[trigger] target_map@[i]) is Some by {
                let (k2, w2) = choose|k2: int, w2: int|
                    0 <= k2 < k + 1 && 0 <= w2 < operations@[k2].targets@.len()
                        && (#[trigger] operations@[k2].targets@[w2]).index == i;
                if k2 < k {
                    assert(placed_in_ops_prefix(operations@, k as int, i));
                }
            }
        }
        k = k + 1;
    }

    // Rows of constant slots.
    if constants.len() > usize::MAX - nr {
        return Err(CircuitError::DegreeTooLarge);
    }
    let const_base = instances.len();
    let mut s: usize = 0;
    while s < constants.len()
        invariant
            s % nr == 0,
            s < constants@.len() + nr,
            instances@.len() as int == const_base + s as int / nr as int,
            forall|t: int| 0 <= t < base_rows ==> #[trigger] instances@[t] == base@[t],
            forall|t: int| 0 <= t < operations@.len()
                ==> (#[trigger] instances@[base_rows + t]).gate == operations@[t].gate,
            forall|t: int| 0 <= t < instances@.len()
                ==> (#[trigger] instances@[t]).gate.degree as int <= dd,
            target_map@.len() == target_index,
            map_wires_ok(target_map@, nr, instances@.len() as int),
            edges_ok(edges@, nr, instances@.len() as int),
            instances_ok(instances@, config.num_wires),
            forall|i: int| 0 <= i < target_map@.len()
                && (placed_in_ops_prefix(operations@, operations@.len() as int, i)
                    || placed_in_consts_prefix(
                        constants@,
                        if s < constants@.len() { s as int } else { constants@.len() as int },
                        i,
                    ))
                ==> (#[trigger] target_map@[i]) is Some,
            forall|i: int| 0 <= i < target_map@.len() && (#[trigger] target_map@[i]) is Some
                ==> placed_in_ops_prefix(operations@, operations@.len() as int, i)
                    || placed_in_consts_prefix(constants@, constants@.len() as int, i),
            operations@.len() == 0 && constants@.len() == 0 && public_inputs@.len() == 0
                ==> edges@.len() == 0,
        decreases constants@.len() + nr - s,
    {
        let row = instances.len();
        let mut vals: Vec<u64> = Vec::new();
        let mut t: usize = 0;
        while t < nr
            invariant
                t <= nr,
                vals@.len() == t,
                s < constants@.len(),
                forall|c: int| 0 <= c < t ==> (#[trigger] vals@[c]) < GOLDILOCKS_ORDER,
            decreases nr - t,
        {
            if s + t < constants.len() {
                vals.push(constants[s + t].0);
            } else {
                vals.push(0);
            }
            t = t + 1;
        }
        instances.push(GateInstance { gate: GateType::constant(nr), constants: vals });
        let mut t2: usize = 0;
        while t2 < nr
            invariant
                t2 <= nr,
                s < constants@.len(),
                row < instances@.len(),
                target_map@.len() == target_index,
                map_wires_ok(target_map@, nr, instances@.len() as int),
                edges_ok(edges@, nr, instances@.len() as int),
                forall|i: int| 0 <= i < target_map@.len()
                    && (placed_in_ops_prefix(operations@, operations@.len() as int, i)
                        || placed_in_consts_prefix(
                            constants@,
                            if s + t2 < constants@.len() { s as int + t2 as int } else {
                                constants@.len() as int
                            },
                            i,
                        ))
                    ==> (#[trigger] target_map@[i]) is Some,
                forall|i: int| 0 <= i < target_map@.len() && (#[trigger] target_map@[i]) is Some
                    ==> placed_in_ops_prefix(operations@, operations@.len() as int, i)
                        || placed_in_consts_prefix(constants@, constants@.len() as int, i),
            decreases nr - t2,
        {
            if s + t2 < constants.len() {
                place_target(
                    &mut target_map,
                    &mut edges,
                    constants[s + t2].1,
                    Wire { row, col: t2 },
                );
            }
            proof {
                let nb: int = if s + t2 + 1 < constants@.len() {
                    s as int + t2 as int + 1
                } else {
                    constants@.len() as int
                };
                assert forall|i: int| 0 <= i < target_map@.len()
                    && (placed_in_ops_prefix(operations@, operations@.len() as int, i)
                        || placed_in_consts_prefix(constants@, nb, i))
                    implies (#[trigger] target_map@[i]) is Some by {
                    if placed_in_consts_prefix(constants@, nb, i)
                        && !placed_in_ops_prefix(operations@, operations@.len() as int, i) {
                        let k2 = choose|k2: int| 0 <= k2 < nb
                            && (#[trigger] constants@[k2]).1.index == i;
                        if k2 < s + t2 && k2 < constants@.len() {
                            assert(placed_in_consts_prefix(
                                constants@,
                                if s + t2 < constants@.len() { s as int + t2 as int } else {
                                    constants@.len() as int
                                },
                                i,
                            ));
                        }
                    }
                }
            }
            t2 = t2 + 1;
        }
        proof {
            let q = s as int / nr as int;
            vstd::arithmetic::div_mod::lemma_fundamental_div_mod(s as int, nr as int);
            assert(q * (nr as int) == (nr as int) * q) by (nonlinear_arith);
            assert(s as int == q * (nr as int));
            assert((q + 1) * (nr as int) == q * (nr as int) + nr) by (nonlinear_arith);
            vstd::arithmetic::div_mod::lemma_fundamental_div_mod_converse(
                (s + nr) as int,
                nr as int,
                q + 1,
                0,
            );
            assert((s + nr) as int % nr as int == 0);
        }
        s = s + nr;
    }
    proof {
        if constants@.len() > 0 {
            let q = s as int / nr as int;
            vstd::arithmetic::div_mod::lemma_fundamental_div_mod(s as int, nr as int);
            assert(q * (nr as int) == (nr as int) * q) by (nonlinear_arith);
            assert(s as int == q * (nr as int));
            vstd::arithmetic::div_mod::lemma_fundamental_div_mod_converse(
                constants@.len() as int + nr - 1,
                nr as int,
                q,
                constants@.len() as int + nr - 1 - q * nr,
            );
        } else {
            vstd::arithmetic::div_mod::lemma_fundamental_div_mod_converse(
                nr as int - 1,
                nr as int,
                0,
                nr as int - 1,
            );
            vstd::arithmetic::div_mod::lemma_fundamental_div_mod_converse(
                s as int,
                nr as int,
                0,
                s as int,
            );
        }
        assert(instances@.len() as int
            == const_base + ceil_div(constants@.len() as int, nr as int));
        assert forall|i: int| 0 <= i < target_map@.len()
            && placed_in_consts_prefix(constants@, constants@.len() as int, i)
            implies (#[trigger] target_map@[i]) is Some by {
            let k2 = choose|k2: int| 0 <= k2 < constants@.len()
                && (#[trigger] constants@[k2]).1.index == i;
            assert(k2 < s);
            assert(placed_in_consts_prefix(constants@, s as int, i));
        }
    }

    // At least one public-input row.
    let pi_base = instances.len();
    if public_inputs.len() == 0 {
        instances.push(GateInstance { gate: GateType::public_input(0), constants: Vec::new() });
        proof {
            vstd::arithmetic::div_mod::lemma_fundamental_div_mod_converse(
                nr as int - 1,
                nr as int,
                0,
                nr as int - 1,
            );
        }
    } else {
        let mut p: usize = 0;
        proof {
            vstd::arithmetic::div_mod::lemma_fundamental_div_mod_converse(
                nr as int - 1,
                nr as int,
                0,
                nr as int - 1,
            );
        }
        while p < public_inputs.len()
            invariant
                p % nr == 0 || p == public_inputs@.len(),
                p <= public_inputs@.len(),
                public_inputs@.len() > 0,
                instances@.len() as int == pi_base + ceil_div(p as int, nr as int),
                p > 0 ==> instances@.len() > pi_base,
                forall|t: int| 0 <= t < base_rows ==> #[trigger] instances@[t] == base@[t],
                forall|t: int| 0 <= t < operations@.len()
                    ==> (#[trigger] instances@[base_rows + t]).gate == operations@[t].gate,
                forall|t: int| 0 <= t < instances@.len()
                    ==> (#[trigger] instances@[t]).gate.degree as int <= dd,
                target_map@.len() == target_index,
                map_wires_ok(target_map@, nr, instances@.len() as int),
                edges_ok(edges@, nr, instances@.len() as int),
                instances_ok(instances@, config.num_wires),
                forall|i: int| 0 <= i < target_map@.len()
                    && (placed_in_ops_prefix(operations@, operations@.len() as int, i)
                        || placed_in_consts_prefix(constants@, constants@.len() as int, i)
                        || placed_in_pis_prefix(public_inputs@, p as int, i))
                    ==> (#[trigger] target_map@[i]) is Some,
                forall|i: int| 0 <= i < target_map@.len() && (#[trigger] target_map@[i]) is Some
                    ==> placed_in_ops_prefix(operations@, operations@.len() as int, i)
                        || placed_in_consts_prefix(constants@, constants@.len() as int, i)
                        || placed_in_pis_prefix(public_inputs@, public_inputs@.len() as int, i),
            decreases public_inputs@.len() - p,
        {
            let remaining = public_inputs.len() - p;
            let chunk = if remaining < nr {
                remaining
            } else {
                nr
            };
            let row = instances.len();
            instances.push(
                GateInstance { gate: GateType::public_input(chunk), constants: Vec::new() },
            );
            let mut t: usize = 0;
            while t < chunk
                invariant
                    t <= chunk,
                    chunk <= nr,
                    p + chunk <= public_inputs@.len(),
                    row < instances@.len(),
                    target_map@.len() == target_index,
                    map_wires_ok(target_map@, nr, instances@.len() as int),
                    edges_ok(edges@, nr, instances@.len() as int),
                    forall|i: int| 0 <= i < target_map@.len()
                        && (placed_in_ops_prefix(operations@, operations@.len() as int, i)
                            || placed_in_consts_prefix(constants@, constants@.len() as int, i)
                            || placed_in_pis_prefix(public_inputs@, p as int + t as int, i))
                        ==> (#[trigger] target_map@[i]) is Some,
                    forall|i: int| 0 <= i < target_map@.len()
                        && (#[trigger] target_map@[i]) is Some
                        ==> placed_in_ops_prefix(operations@, operations@.len() as int, i)
                            || placed_in_consts_prefix(constants@, constants@.len() as int, i)
                            || placed_in_pis_prefix(
                                public_inputs@,
                                public_inputs@.len() as int,
                                i,
                            ),
                decreases chunk - t,
            {
                let tgt = public_inputs[p + t];
                if tgt.index >= target_map.len() {
                    return Err(CircuitError::UnplacedTarget);
                }
                place_target(&mut target_map, &mut edges, tgt, Wire { row, col: t });
                proof {
                    assert forall|i: int| 0 <= i < target_map@.len()
                        && (placed_in_ops_prefix(operations@, operations@.len() as int, i)
                            || placed_in_consts_prefix(constants@, constants@.len() as int, i)
                            || placed_in_pis_prefix(public_inputs@, p as int + t as int + 1, i))
                        implies (#[trigger] target_map@[i]) is Some by {
                        if placed_in_pis_prefix(public_inputs@, p as int + t as int + 1, i)
                            && !placed_in_ops_prefix(operations@, operations@.len() as int, i)
                            && !placed_in_consts_prefix(constants@, constants@.len() as int, i) {
                            let k2 = choose|k2: int| 0 <= k2 < p + t + 1
                                && (#[trigger] public_inputs@[k2]).index == i;
                            if k2 < p + t {
                                assert(placed_in_pis_prefix(public_inputs@, p as int + t as int,
                                    i));
                            }
                        }
                    }
                }
                t = t + 1;
            }
            proof {
                let q = p as int / nr as int;
                vstd::arithmetic::div_mod::lemma_fundamental_div_mod(p as int, nr as int);
                assert(q * (nr as int) == (nr as int) * q) by (nonlinear_arith);
                assert(p as int == q * (nr as int));
                assert((q + 1) * (nr as int) == q * (nr as int) + nr) by (nonlinear_arith);
                vstd::arithmetic::div_mod::lemma_fundamental_div_mod_converse(
                    p as int + nr - 1,
                    nr as int,
                    q,
                    nr as int - 1,
                );
                vstd::arithmetic::div_mod::lemma_fundamental_div_mod_converse(
                    (p + chunk) as int + nr - 1,
                    nr as int,
                    q + 1,
                    chunk as int - 1,
                );
                if chunk == nr {
                    vstd::arithmetic::div_mod::lemma_fundamental_div_mod_converse(
                        (p + nr) as int,
                        nr as int,
                        q + 1,
                        0,
                    );
                }
            }
            p = p + chunk;
        }
    }
    proof {
        assert forall|i: int| 0 <= i < target_map@.len()
            && placed_index_parts(operations@, constants@, public_inputs@, i)
            implies (#[trigger] target_map@[i]) is Some by {}
        assert forall|i: int| 0 <= i < target_map@.len() && (#[trigger] target_map@[i]) is Some
            implies placed_index_parts(operations@, constants@, public_inputs@, i) by {}
    }
    Ok((instances, target_map, edges))
}

/// A routed wire's canonical slot stays inside the grid.
proof fn lemma_slot_in_range(w: Wire, nr: usize, degree: usize)
    requires
        w.col < nr,
        w.row < degree,
        degree >= 1,
        (nr as int) * (degree as int) <= usize::MAX as int,
    ensures
        0 <= w.col * degree + w.row < nr * degree,
        w.col * degree + w.row <= usize::MAX,
{
    assert((w.col as int) * (degree as int) + (w.row as int)
        < (nr as int) * (degree as int)) by (nonlinear_arith)
        requires (w.col as int) < (nr as int) && (w.row as int) < (degree as int)
            && degree >= 1 && 0 <= w.col as int && 0 <= w.row as int;
}

/// Builds the forest over the routed wire grid: every duplicate-placement
/// edge and every copy constraint is unioned, so copy-constrained targets end
/// in one equivalence class. With no edges and no constraints the forest
/// stays the identity.
#[verifier::loop_isolation(false)]
#[verifier::rlimit(60)]
fn build_forest(
    nr: usize,
    degree: usize,
    map: &Vec<Option<Wire>>,
    edges: &Vec<(Wire, Wire)>,
    ccs: &Vec<CopyConstraint>,
) -> (r: Result<Forest, CircuitError>)
    requires
        degree >= 1,
        (nr as int) * (degree as int) <= usize::MAX as int,
        map_wires_ok(map@, nr, degree as int),
        edges_ok(edges@, nr, degree as int),
    ensures
        match r {
            Ok(f) => {
                &&& f.wf()
                &&& f.len() == nr * degree
                &&& forall|k: int| 0 <= k < ccs@.len() ==> {
                    let sa = target_slot(map@, degree as nat, (#[trigger] ccs@[k]).a);
                    let sb = target_slot(map@, degree as nat, ccs@[k].b);
                    0 <= sa < f.len() && 0 <= sb < f.len()
                        && root_of(f@, sa) == root_of(f@, sb)
                }
                &&& (edges@.len() == 0 && ccs@.len() == 0)
                    ==> forall|i: int| 0 <= i < f.len() ==> f@[i] == i
            },
            Err(e) => e == CircuitError::UnplacedTarget && exists|k: int|
                0 <= k < ccs@.len() && {
                    let cc = #[trigger] ccs@[k];
                    ||| cc.a.index >= map@.len()
                    ||| cc.b.index >= map@.len()
                    ||| map@[cc.a.index as int] is None
                    ||| map@[cc.b.index as int] is None
                },
        },
{
    let n_slots = nr * degree;
    let mut forest = Forest::new(n_slots);
    let mut ei: usize = 0;
    while ei < edges.len()
        invariant
            ei <= edges@.len(),
            forest.wf(),
            forest.len() == n_slots,
            edges@.len() == 0 ==> forall|i: int| 0 <= i < n_slots ==> forest@[i] == i,
        decreases edges@.len() - ei,
    {
        let e = edges[ei];
        proof {
            lemma_slot_in_range(e.0, nr, degree);
            lemma_slot_in_range(e.1, nr, degree);
        }
        let ia = e.0.col * degree + e.0.row;
        let ib = e.1.col * degree + e.1.row;
        forest.merge(ia, ib);
        ei = ei + 1;
    }
    let mut ci: usize = 0;
    while ci < ccs.len()
        invariant
            ci <= ccs@.len(),
            forest.wf(),
            forest.len() == n_slots,
            (edges@.len() == 0 && ccs@.len() == 0)
                ==> forall|i: int| 0 <= i < n_slots ==> forest@[i] == i,
            forall|k: int| 0 <= k < ci ==> {
                let sa = target_slot(map@, degree as nat, (#[trigger] ccs@[k]).a);
                let sb = target_slot(map@, degree as nat, ccs@[k].b);
                0 <= sa < n_slots && 0 <= sb < n_slots
                    && root_of(forest@, sa) == root_of(forest@, sb)
            },
        decreases ccs@.len() - ci,
    {
        let cc = ccs[ci];
        if cc.a.index >= map.len() || cc.b.index >= map.len() {
            return Err(CircuitError::UnplacedTarget);
        }
        let wa = match map[cc.a.index] {
            Some(w) => w,
            None => {
                return Err(CircuitError::UnplacedTarget);
            },
        };
        let wb = match map[cc.b.index] {
            Some(w) => w,
            None => {
                return Err(CircuitError::UnplacedTarget);
            },
        };
        proof {
            lemma_slot_in_range(wa, nr, degree);
            lemma_slot_in_range(wb, nr, degree);
        }
        let ia = wa.col * degree + wa.row;
        let ib = wb.col * degree + wb.row;
        let ghost before = forest@;
        forest.merge(ia, ib);
        proof {
            assert forall|k: int| 0 <= k < ci + 1 implies {
                let sa = target_slot(map@, degree as nat, (#[trigger] ccs@[k]).a);
                let sb = target_slot(map@, degree as nat, ccs@[k].b);
                0 <= sa < n_slots && 0 <= sb < n_slots
                    && root_of(forest@, sa) == root_of(forest@, sb)
            } by {
                let sa = target_slot(map@, degree as nat, ccs@[k].a);
                let sb = target_slot(map@, degree as nat, ccs@[k].b);
                if k < ci {
                    crate::forest::lemma_merge_preserves_equal(before, ia as int, ib as int, sa,
                        sb);
                }
            }
        }
        ci = ci + 1;
    }
    Ok(forest)
}

/// The sorted gate registry of the rows, each gate with its selector code,
/// together with the selector length, the largest filtered constraint degree,
/// the number of constant columns, and the largest constraint count.
#[verifier::loop_isolation(false)]
#[verifier::rlimit(100)]
#[verifier::spinoff_prover]
fn registry_phase(instances: &Vec<GateInstance>, num_wires: usize, degree_bits: usize) -> (r: (
    Vec<PrefixedGate>,
    usize,
    usize,
    usize,
    usize,
))
    requires
        num_wires <= 0x3FFF_FFFFusize,
        instances@.len() >= 1,
        instances@.len() == pow2(degree_bits as nat),
        degree_bits <= 32,
        instances_ok(instances@, num_wires),
    ensures
        ({
            let (prefixed, code_len, max_filtered, num_constants, num_gate_constraints) = r;
            registry_summary(
                instances@,
                prefixed@,
                code_len,
                max_filtered,
                num_constants,
                num_gate_constraints,
            )
        }),
{
    let mut gate_types: Vec<GateType> = Vec::new();
    let mut gk: usize = 0;
    while gk < instances.len()
        invariant
            gk <= instances@.len(),
            gate_types@.len() == gk,
            forall|t: int| 0 <= t < gk ==> #[trigger] gate_types@[t] == instances@[t].gate,
        decreases instances@.len() - gk,
    {
        gate_types.push(instances[gk].gate);
        gk = gk + 1;
    }
    let registry = sorted_gate_registry(&gate_types);
    let m = registry.len();
    let code_len = selector_code_len(m);
    proof {
        if m >= 2 && code_len > 33 {
            if code_len - 1 > 33 {
                vstd::arithmetic::power2::lemma_pow2_strictly_increases(33, (code_len - 1) as nat);
            }
            assert(pow2((code_len - 1) as nat) >= pow2(33));
            vstd::arithmetic::power2::lemma_pow2_strictly_increases(degree_bits as nat, 33);
            assert(m <= instances@.len());
        }
        assert(code_len <= 33);
    }
    let mut prefixed: Vec<PrefixedGate> = Vec::new();
    let mut gi: usize = 0;
    while gi < m
        invariant
            gi <= m,
            prefixed@.len() == gi,
            forall|t: int| 0 <= t < gi
                ==> (#[trigger] prefixed@[t]).gate == registry@[t]
                    && prefixed@[t].prefix@ == code_bits(t as nat, code_len as nat),
        decreases m - gi,
    {
        let pfx = gate_prefix(gi, code_len);
        prefixed.push(PrefixedGate { gate: registry[gi], prefix: pfx });
        gi = gi + 1;
    }
    proof {
        assert forall|i: int, j: int| 0 <= i < j < prefixed@.len()
            implies (#[trigger] prefixed@[i]).prefix@ != (#[trigger] prefixed@[j]).prefix@ by {
            vstd::arithmetic::power2::lemma_pow2_pos(code_len as nat);
            if prefixed@[i].prefix@ == prefixed@[j].prefix@ {
                crate::gates::lemma_code_injective(i as nat, j as nat, code_len as nat);
            }
        }
        assert forall|i: int, j: int| 0 <= i < j < prefixed@.len()
            implies crate::gates::gate_le(
                (#[trigger] prefixed@[i]).gate,
                (#[trigger] prefixed@[j]).gate,
            ) && prefixed@[i].gate != prefixed@[j].gate by {
            assert(prefixed@[i].gate == registry@[i] && prefixed@[j].gate == registry@[j]);
        }
    }
    let mut max_filtered: usize = 0;
    let mut num_constants: usize = code_len;
    let mut num_gate_constraints: usize = 0;
    let mut mi: usize = 0;
    while mi < m
        invariant
            mi <= m,
            max_filtered <= crate::gates::MAX_GATE_DEGREE + code_len,
            code_len <= num_constants,
            num_constants <= code_len + crate::gates::MAX_GATE_DEGREE,
            forall|t: int| 0 <= t < mi
                ==> max_filtered >= (#[trigger] registry@[t]).degree + code_len
                    && num_constants >= code_len + registry@[t].num_constants
                    && num_gate_constraints >= registry@[t].num_constraints,
            max_filtered == 0 || exists|t: int| 0 <= t < m
                && max_filtered == (#[trigger] registry@[t]).degree + code_len,
            num_gate_constraints == 0 || exists|t: int| 0 <= t < m
                && num_gate_constraints == (#[trigger] registry@[t]).num_constraints,
        decreases m - mi,
    {
        proof {
            assert(gate_types@.contains(registry@[mi as int]));
            let w = choose|w: int| 0 <= w < gate_types@.len()
                && gate_types@[w] == registry@[mi as int];
            assert(instances@[w].gate == registry@[mi as int]);
            assert(instances@[w].gate.fits(num_wires));
        }
        let g = registry[mi];
        if g.degree + code_len > max_filtered {
            max_filtered = g.degree + code_len;
        }
        if code_len + g.num_constants > num_constants {
            num_constants = code_len + g.num_constants;
        }
        if g.num_constraints > num_gate_constraints {
            num_gate_constraints = g.num_constraints;
        }
        mi = mi + 1;
    }
    proof {
        if max_filtered != 0 {
            let t = choose|t: int| 0 <= t < m
                && max_filtered == (#[trigger] registry@[t]).degree + code_len;
            assert(prefixed@[t].gate == registry@[t]);
            assert(max_filtered == prefixed@[t].gate.degree + code_len);
        }
        if num_gate_constraints != 0 {
            let t = choose|t: int| 0 <= t < m
                && num_gate_constraints == (#[trigger] registry@[t]).num_constraints;
            assert(prefixed@[t].gate == registry@[t]);
            assert(num_gate_constraints == prefixed@[t].gate.num_constraints);
        }
        assert forall|g: int| 0 <= g < prefixed@.len() implies gate_from_instances(
            instances@,
            (#[trigger] prefixed@[g]).gate,
        ) by {
            assert(registry@.contains(registry@[g]));
            assert(gate_types@.contains(registry@[g]));
            let t = choose|t: int| 0 <= t < gate_types@.len() && gate_types@[t] == registry@[g];
            assert(instances@[t].gate == prefixed@[g].gate);
        }
        assert forall|t: int| 0 <= t < instances@.len() implies gate_listed(
            prefixed@,
            (#[trigger] instances@[t]).gate,
        ) by {
            assert(gate_types@[t] == instances@[t].gate);
            assert(gate_types@.contains(instances@[t].gate));
            assert(registry@.contains(instances@[t].gate));
            let g = choose|g: int| 0 <= g < registry@.len()
                && registry@[g] == instances@[t].gate;
            assert(prefixed@[g].gate == instances@[t].gate);
        }
    }
    proof {
        assert(registry_summary(
            instances@,
            prefixed@,
            code_len,
            max_filtered,
            num_constants,
            num_gate_constraints,
        )) by {
            reveal(registry_summary);
        }
    }
    (prefixed, code_len, max_filtered, num_constants, num_gate_constraints)
}


} // verus!

verus! {

impl CircuitBuilder {
    /// Compiles the circuit description, consuming the builder. The
    /// description is materialized into gate rows, padded with empty gates to
    /// a power-of-two degree; the copy constraints are unioned into the
    /// forest over the routed wire grid; the sigma and constant polynomials,
    /// the commitment cap, the circuit digest, the FFT root table and the
    /// generator index are derived from that.
    ///
    /// On success, `compiled_ok` holds: the degree is the least power of two
    /// holding the description's rows; the selector codes are equal-length
    /// and pairwise distinct over the stably ordered registry; the
    /// quotient-degree factor lies in the configured range; the coset shifts
    /// and the subgroup are the fixed nonzero power sequences and their
    /// cosets were checked pairwise disjoint; copy-constrained targets share
    /// a forest representative; with an empty description the permutation is
    /// the identity on every column; and the cap and digest are the fixed
    /// digests of the committed batch. On failure, `build_errors_ok` names
    /// the cause each error variant attests.
    pub fn build(self) -> (r: Result<CircuitData, CircuitError>)
        requires
            self.wf(),
        ensures
            match r {
                Ok(d) => compiled_ok(self, d.common, d.prover_only, d.verifier_only),
                Err(e) => build_errors_ok(self, e),
            },
    {
        let CircuitBuilder {
            config,
            public_inputs,
            target_index,
            copy_constraints,
            context_log: _,
            marked_targets,
            gate_instances,
            operations,
            generators,
            constants,
        } = self;
        let nr = config.num_routed_wires;

        let (mut instances, target_map, edges) = match materialize_rows(
            config,
            gate_instances,
            &operations,
            &constants,
            &public_inputs,
            target_index,
        ) {
            Ok(t) => t,
            Err(e) => {
                return Err(e);
            },
        };
        proof {
            assert(instances@.len() as int == user_rows(self));
        }
        let user_count = instances.len();
        let ghost dd = desc_degree_parts(self.gate_instances@, self.operations@);

        // Pad with empty gates to a power-of-two number of rows.
        let mut degree: usize = 1;
        let mut dbits: usize = 0;
        proof {
            vstd::arithmetic::power2::lemma2_to64();
        }
        while degree < user_count
            invariant
                degree as nat == pow2(dbits as nat),
                degree >= 1,
                user_count >= 1,
                degree <= 2 * user_count,
                dbits == 0 || pow2((dbits - 1) as nat) < user_count,
                user_count as int == user_rows(self),
            decreases 2 * user_count - degree,
        {
            if degree > usize::MAX / 2 || dbits >= 64 {
                proof {
                    if degree > usize::MAX / 2 {
                        assert(2 * user_rows(self) > usize::MAX);
                    } else {
                        if dbits > 64 {
                            vstd::arithmetic::power2::lemma_pow2_strictly_increases(
                                64,
                                dbits as nat,
                            );
                        }
                        assert(pow2(64) <= pow2(dbits as nat));
                        assert(pow2(64) <= usize::MAX);
                    }
                }
                return Err(CircuitError::DegreeTooLarge);
            }
            let ghost old_degree = degree;
            degree = degree * 2;
            dbits = dbits + 1;
            proof {
                vstd::arithmetic::power2::lemma_pow2_unfold(dbits as nat);
                assert(pow2((dbits - 1) as nat) == old_degree);
            }
        }
        proof {
            crate::util::lemma_pow2_is_pow2(dbits as nat);
        }
        let degree_bits = plonky2_util::log2_strict(degree);
        proof {
            if degree_bits as nat != dbits as nat {
                if (degree_bits as nat) < (dbits as nat) {
                    vstd::arithmetic::power2::lemma_pow2_strictly_increases(
                        degree_bits as nat,
                        dbits as nat,
                    );
                } else {
                    vstd::arithmetic::power2::lemma_pow2_strictly_increases(
                        dbits as nat,
                        degree_bits as nat,
                    );
                }
            }
        }
        proof {
            assert(is_min_degree_bits(self, degree_bits as nat));
        }
        if degree_bits > crate::field::TWO_ADICITY {
            proof {
                assert(degree_bits as nat + self.config.fri_config.rate_bits
                    > crate::field::TWO_ADICITY);
            }
            return Err(CircuitError::DegreeTooLarge);
        }
        let ghost pre_pad = instances@;
        while instances.len() < degree
            invariant
                target_map@.len() == target_index,
                map_wires_ok(target_map@, nr, user_count as int),
                edges_ok(edges@, nr, user_count as int),
                instances@.len() >= user_count,
                instances@.len() <= degree,
                instances_ok(instances@, config.num_wires),
                forall|t: int| 0 <= t < user_count ==> #[trigger] instances@[t] == pre_pad[t],
                dd >= 1,
                forall|t: int| 0 <= t < instances@.len()
                    ==> (#[trigger] instances@[t]).gate.degree as int <= dd,
            decreases degree - instances.len(),
        {
            instances.push(GateInstance { gate: GateType::noop(), constants: Vec::new() });
        }
        proof {
            assert(instances@.len() == degree);
            assert(map_wires_ok(target_map@, nr, degree as int));
            assert(edges_ok(edges@, nr, degree as int));
        }

        let fri_params = fri_params_for(degree_bits);

        let (prefixed, code_len, max_filtered, num_constants, num_gate_constraints) =
            registry_phase(&instances, config.num_wires, degree_bits);
        proof {
            reveal(registry_summary);
        }

        // Quotient-degree-factor selection over the admissible range.
        let lo = if max_filtered >= 2 {
            max_filtered - 1
        } else {
            1
        };
        let hi = match crate::util::checked_pow2(config.fri_config.rate_bits) {
            Some(p) => {
                if config.max_quotient_degree_factor < p {
                    config.max_quotient_degree_factor
                } else {
                    p
                }
            },
            None => config.max_quotient_degree_factor,
        };
        if lo > hi || hi < 1 {
            proof {
                reveal(registry_summary);
                assert(hi as int == quotient_hi(self.config));
                if max_filtered >= 2 {
                    let i = choose|i: int| 0 <= i < prefixed@.len()
                        && max_filtered == (#[trigger] prefixed@[i]).gate.degree + code_len;
                    assert(gate_from_instances(instances@, prefixed@[i].gate));
                    let t = choose|t: int| 0 <= t < instances@.len()
                        && (#[trigger] instances@[t]).gate == prefixed@[i].gate;
                    assert(instances@[t].gate.degree as int <= dd);
                    assert(max_filtered as int <= dd + code_len);
                }
                assert(quotient_hi(self.config) < description_degree(self) + 33);
            }
            return Err(CircuitError::EmptyQuotientRange);
        }
        let quotient_degree_factor = select_quotient_degree_factor(nr, lo, hi);
        let num_partial_products_count = num_partial_products(nr, quotient_degree_factor);
        proof {
            reveal(registry_summary);
            assert forall|k: int| 0 <= k < self.gate_instances@.len()
                implies (#[trigger] instances@[k]).gate == self.gate_instances@[k].gate by {
                assert(instances@[k] == pre_pad[k]);
            }
            assert forall|k: int| 0 <= k < self.operations@.len()
                implies (#[trigger] instances@[self.gate_instances@.len() + k]).gate
                    == self.operations@[k].gate by {
                assert(instances@[self.gate_instances@.len() + k]
                    == pre_pad[self.gate_instances@.len() + k]);
            }
        }
        finish_build(
            Ghost(self),
            config,
            instances,
            target_map,
            edges,
            copy_constraints,
            generators,
            public_inputs,
            marked_targets,
            target_index,
            degree,
            degree_bits,
            fri_params,
            prefixed,
            code_len,
            max_filtered,
            num_constants,
            num_gate_constraints,
            quotient_degree_factor,
            num_partial_products_count,
        )
    }

    }

}

verus! {

/// The second half of compilation: fixed polynomials, forest, sigma
/// polynomials, commitment cap, digest, FFT roots and the generator index,
/// assembled into the three circuit-data artifacts. `b` is the original
/// builder, which the contract speaks of.
#[verifier::rlimit(100)]
fn finish_build(
    b: Ghost<CircuitBuilder>,
    config: CircuitConfig,
    instances: Vec<GateInstance>,
    target_map: Vec<Option<Wire>>,
    edges: Vec<(Wire, Wire)>,
    copy_constraints: Vec<CopyConstraint>,
    generators: Vec<Generator>,
    public_inputs: Vec<Target>,
    marked_targets: Vec<MarkedTargets>,
    target_index: usize,
    degree: usize,
    degree_bits: usize,
    fri_params: FriParams,
    prefixed: Vec<PrefixedGate>,
    code_len: usize,
    max_filtered: usize,
    num_constants: usize,
    num_gate_constraints: usize,
    quotient_degree_factor: usize,
    num_partial_products_count: usize,
) -> (r: Result<CircuitData, CircuitError>)
    requires
        b@.wf(),
        config == b@.config,
        target_index == b@.target_index,
        copy_constraints == b@.copy_constraints,
        generators == b@.generators,
        public_inputs == b@.public_inputs,
        marked_targets == b@.marked_targets,
        degree >= 1,
        degree as nat == pow2(degree_bits as nat),
        degree_bits <= crate::field::TWO_ADICITY,
        pow2(degree_bits as nat) >= user_rows(b@),
        degree_bits == 0 || pow2((degree_bits - 1) as nat) < user_rows(b@),
        instances@.len() == degree,
        instances_ok(instances@, config.num_wires),
        registry_summary(instances@, prefixed@, code_len, max_filtered, num_constants,
            num_gate_constraints),
        forall|k: int| 0 <= k < b@.gate_instances@.len()
            ==> (#[trigger] instances@[k]).gate == b@.gate_instances@[k].gate,
        forall|k: int| 0 <= k < b@.operations@.len()
            ==> (#[trigger] instances@[b@.gate_instances@.len() + k]).gate
                == b@.operations@[k].gate,
        b@.gate_instances@.len() + b@.operations@.len() <= instances@.len(),
        target_map@.len() == target_index,
        map_wires_ok(target_map@, config.num_routed_wires, degree as int),
        edges_ok(edges@, config.num_routed_wires, degree as int),
        forall|i: int| 0 <= i < target_map@.len()
            ==> ((#[trigger] target_map@[i]) is Some <==> placed_index(b@, i)),
        (b@.gate_instances@.len() == 0 && b@.operations@.len() == 0 && b@.constants@.len() == 0
            && b@.public_inputs@.len() == 0) ==> edges@.len() == 0,
        fri_params.degree_bits == degree_bits,
        fri_params.wf(),
        crate::fri::total_arities(fri_params.reduction_arity_bits@) <= degree_bits,
        quotient_degree_factor >= 1,
        forall|i: int| 0 <= i < prefixed@.len()
            ==> quotient_degree_factor + 1
                >= (#[trigger] prefixed@[i]).gate.degree + code_len,
        quotient_degree_factor <= config.max_quotient_degree_factor,
        quotient_degree_factor as int <= pow2(config.fri_config.rate_bits as nat),
        num_partial_products_count as int == crate::quotient::num_partial_products_spec(
            config.num_routed_wires as nat,
            quotient_degree_factor as nat,
        ),
    ensures
        match r {
            Ok(d) => compiled_ok(b@, d.common, d.prover_only, d.verifier_only),
            Err(e) => build_errors_ok(b@, e),
        },
{
    let nr = config.num_routed_wires;
    let instances = instances;
    let target_map = target_map;
    proof {
        reveal(registry_summary);
        assert(is_min_degree_bits(b@, degree_bits as nat));
    }
    let (constant_vecs, k_is, subgroup, prods) = match fixed_phase(
        &instances,
        &prefixed,
        code_len,
        num_constants,
        nr,
        degree,
        degree_bits,
    ) {
        Ok(t) => t,
        Err(e) => {
            return Err(e);
        },
    };
    if nr > usize::MAX / degree {
        proof {
            assert((nr as int) * (degree as int) > usize::MAX as int) by (nonlinear_arith)
                requires (nr as int) > (usize::MAX as int) / (degree as int) && degree >= 1
                    && 0 <= nr as int;
            assert(pow2(degree_bits as nat) * nr > usize::MAX);
        }
        return Err(CircuitError::DegreeTooLarge);
    }
    proof {
        assert((nr as int) * (degree as int) <= usize::MAX as int) by (nonlinear_arith)
            requires (nr as int) <= (usize::MAX as int) / (degree as int) && degree >= 1
                && 0 <= nr as int;
    }
    let n_slots = nr * degree;
    let (representative_map, sigma_vecs, sigmas) = match sigma_phase(
        nr,
        degree,
        degree_bits,
        &target_map,
        &edges,
        &copy_constraints,
        &prods,
        &k_is,
        &subgroup,
    ) {
        Ok(t) => t,
        Err(e) => {
            proof {
                let k = choose|k: int| 0 <= k < copy_constraints@.len() && {
                    let cc = #[trigger] copy_constraints@[k];
                    ||| cc.a.index >= target_map@.len()
                    ||| cc.b.index >= target_map@.len()
                    ||| target_map@[cc.a.index as int] is None
                    ||| target_map@[cc.b.index as int] is None
                };
                assert(!target_resolvable(b@, copy_constraints@[k].a)
                    || !target_resolvable(b@, copy_constraints@[k].b));
                assert(has_unplaced_reference(b@));
            }
            return Err(e);
        },
    };
    let (batch, verifier_cap, prover_cap, circuit_digest) = match commit_light(
        constant_vecs,
        &sigma_vecs,
        &prefixed,
        config.fri_config.cap_height,
        degree,
    ) {
        Ok(t) => t,
        Err(e) => {
            return Err(e);
        },
    };
    // FFT roots for the largest extension this circuit will need. The
    // quotient factor is capped by the blowup, so the extension never needs
    // more than `rate_bits` extra levels.
    let lg_qdf = plonky2_util::log2_ceil(quotient_degree_factor);
    proof {
        if quotient_degree_factor >= 2 {
            if lg_qdf >= 1 && lg_qdf - 1 >= config.fri_config.rate_bits {
                if lg_qdf - 1 > config.fri_config.rate_bits {
                    vstd::arithmetic::power2::lemma_pow2_strictly_increases(
                        config.fri_config.rate_bits as nat,
                        (lg_qdf - 1) as nat,
                    );
                }
                assert(pow2((lg_qdf - 1) as nat) >= pow2(config.fri_config.rate_bits as nat));
                assert(false);
            }
        }
        assert(lg_qdf <= config.fri_config.rate_bits);
    }
    let extra = if config.fri_config.rate_bits < lg_qdf {
        lg_qdf
    } else {
        config.fri_config.rate_bits
    };
    proof {
        assert(extra == config.fri_config.rate_bits);
    }
    if degree_bits > crate::field::TWO_ADICITY - extra {
        return Err(CircuitError::DegreeTooLarge);
    }
    let fft_table = match fft_light(degree_bits + extra) {
        Some(t) => t,
        None => {
            return Err(CircuitError::DegreeTooLarge);
        },
    };

    let buckets = match generator_phase(
        &generators,
        &target_map,
        &representative_map,
        degree,
        n_slots,
    ) {
        Ok(t) => t,
        Err(e) => {
            proof {
                let (g, w) = choose|g: int, w: int|
                    0 <= g < generators@.len() && 0 <= w < generators@[g].watches@.len() && {
                        let t = #[trigger] generators@[g].watches@[w];
                        t.index >= target_map@.len() || target_map@[t.index as int] is None
                    };
                assert(!target_resolvable(b@, b@.generators@[g].watches@[w]));
                assert(has_unplaced_reference(b@));
            }
            return Err(e);
        },
    };
    let prover_only = ProverOnlyCircuitData {
        generators,
        generator_indices_by_watches: buckets,
        constants_sigmas_values: batch,
        constants_sigmas_cap: prover_cap,
        sigmas,
        subgroup,
        public_inputs,
        marked_targets,
        representative_map,
        target_wires: target_map,
        fft_root_table: fft_table,
    };
    let verifier_only = VerifierOnlyCircuitData { constants_sigmas_cap: verifier_cap };
    let common = CommonCircuitData {
        config,
        fri_params,
        degree_bits,
        gates: prefixed,
        quotient_degree_factor,
        num_gate_constraints,
        num_constants,
        num_targets: target_index,
        k_is,
        num_partial_products: num_partial_products_count,
        circuit_digest,
    };
    proof {
        let sv = sigma_vecs@.map_values(|v: Vec<u64>| v@);
        let dv = prover_only.constants_sigmas_values.deep_view();
        assert(batch_sigma_cells_ok(dv, num_constants as int,
            prover_only.representative_map@, nr as int, degree as nat,
            degree_bits as nat)) by {
            reveal(batch_sigma_cells_ok);
            reveal(sigma_cells_ok);
            assert forall|c: int, row: int| #![trigger dv[num_constants + c][row]]
                0 <= c < nr && 0 <= row < degree implies {
                let nxt = rep_next(prover_only.representative_map@, c * degree + row);
                dv[num_constants + c][row] == crate::field::f_mul(
                    coset_shift((nxt / degree as int) as nat),
                    subgroup_element(degree_bits as nat, (nxt % degree as int) as nat),
                )
            } by {
                assert(dv[num_constants + c]
                    == prover_only.constants_sigmas_values@[num_constants + c]@);
                assert(prover_only.constants_sigmas_values@[num_constants + c]@
                    == sigma_vecs@[c]@);
                assert(sv[c] == sigma_vecs@[c]@);
                assert(sv[c][row] == crate::field::f_mul(
                    coset_shift((rep_next(prover_only.representative_map@,
                        c * degree + row) / degree as int) as nat),
                    subgroup_element(degree_bits as nat,
                        (rep_next(prover_only.representative_map@, c * degree + row)
                            % degree as int) as nat),
                ));
            }
        }
        assert forall|k: int| 0 <= k < b@.gate_instances@.len()
            implies gate_listed(common.gates@, (#[trigger] b@.gate_instances@[k]).gate) by {
            assert(instances@[k].gate == b@.gate_instances@[k].gate);
            assert(gate_listed(prefixed@, instances@[k].gate));
        }
        assert forall|k: int| 0 <= k < b@.operations@.len()
            implies gate_listed(common.gates@, (#[trigger] b@.operations@[k]).gate) by {
            assert(instances@[b@.gate_instances@.len() + k].gate == b@.operations@[k].gate);
            assert(gate_listed(prefixed@, instances@[b@.gate_instances@.len() + k].gate));
        }
        assert(compiled_shape_ok(b@, common)) by {
            reveal(compiled_shape_ok);
        }
        assert(compiled_polys_ok(b@, common, prover_only, verifier_only)) by {
            reveal(compiled_polys_ok);
        }
        assert(compiled_maps_ok(b@, common, prover_only)) by {
            reveal(compiled_maps_ok);
        }
    }
    Ok(CircuitData { prover_only, verifier_only, common })
    }

} // verus!

verus! {

impl CircuitBuilder {
    /// Builds the prover's view of the circuit: the common and prover-only
    /// parts of one full compilation.
    pub fn build_prover(self) -> (r: Result<ProverCircuitData, CircuitError>)
        requires
            self.wf(),
        ensures
            match r {
                Ok(p) => prover_data_ok(self, p),
                Err(e) => build_errors_ok(self, e),
            },
    {
        let ghost me = self;
        match self.build() {
            Ok(data) => {
                let CircuitData { prover_only, verifier_only, common } = data;
                let result = ProverCircuitData { prover_only, common };
                proof {
                    assert(compiled_ok(self, result.common, result.prover_only, verifier_only));
                    assert(prover_data_ok(self, result));
                }
                Ok(result)
            },
            Err(e) => Err(e),
        }
    }

    /// Builds the verifier's view of the circuit: the common and
    /// verifier-only parts of one full compilation.
    pub fn build_verifier(self) -> (r: Result<VerifierCircuitData, CircuitError>)
        requires
            self.wf(),
        ensures
            match r {
                Ok(v) => verifier_data_ok(self, v),
                Err(e) => build_errors_ok(self, e),
            },
    {
        let ghost me = self;
        match self.build() {
            Ok(data) => {
                let ghost gdata = data;
                let CircuitData { prover_only: _, verifier_only, common } = data;
                let result = VerifierCircuitData { verifier_only, common };
                proof {
                    assert(compiled_ok(self, result.common, gdata.prover_only,
                        result.verifier_only));
                    assert(verifier_data_ok(self, result));
                }
                Ok(result)
            },
            Err(e) => Err(e),
        }
    }
}

} // verus!

verus! {

/// With an identity forest, every sigma column is the identity permutation
/// on its coset: position `(c, row)` holds `k_c * omega^row`.
#[verifier::rlimit(60)]
proof fn lemma_identity_sigma(
    p: Seq<usize>,
    sigma: Seq<Seq<u64>>,
    prods: Seq<Seq<u64>>,
    k_is: Seq<u64>,
    subgroup: Seq<u64>,
    nr: usize,
    degree: usize,
    degree_bits: usize,
)
    requires
        degree >= 1,
        forall|i: int| 0 <= i < p.len() ==> #[trigger] p[i] == i,
        p.len() == nr * degree,
        sigma.len() == nr,
        prods.len() == nr,
        k_is.len() == nr,
        subgroup.len() == degree,
        forall|c: int| 0 <= c < nr ==> (#[trigger] sigma[c]).len() == degree,
        forall|c: int, row: int| #![trigger sigma[c][row]]
            0 <= c < nr && 0 <= row < degree
            ==> sigma[c][row] == crate::permutation::sigma_value(
                p,
                prods,
                degree as nat,
                c * degree + row,
            ),
        forall|i: int, a: int| #![trigger prods[i][a]]
            0 <= i < nr && 0 <= a < degree
            ==> prods[i][a] == crate::field::f_mul(k_is[i], subgroup[a]),
        forall|i: int| 0 <= i < nr ==> #[trigger] k_is[i] == coset_shift(i as nat),
        forall|j: int| 0 <= j < degree
            ==> #[trigger] subgroup[j] == subgroup_element(degree_bits as nat, j as nat),
    ensures
        forall|c: int, row: int| #![trigger sigma[c][row]]
            0 <= c < nr && 0 <= row < degree
            ==> sigma[c][row] == crate::field::f_mul(
                coset_shift(c as nat),
                subgroup_element(degree_bits as nat, row as nat),
            ),
{
    assert forall|c: int, row: int| #![trigger sigma[c][row]]
        0 <= c < nr && 0 <= row < degree
        implies sigma[c][row] == crate::field::f_mul(
            coset_shift(c as nat),
            subgroup_element(degree_bits as nat, row as nat),
        ) by {
        assert((c + 1) * (degree as int) <= (nr as int) * (degree as int)) by (nonlinear_arith)
            requires c < (nr as int) && degree >= 1 && 0 <= c;
        assert(c * (degree as int) + row < (nr as int) * (degree as int)) by (nonlinear_arith)
            requires (c + 1) * (degree as int) <= (nr as int) * (degree as int) && 0 <= row
                && row < (degree as int) && 0 <= c;
        let idx = c * (degree as int) + row;
        crate::permutation::lemma_next_identity(p, idx);
        vstd::arithmetic::div_mod::lemma_fundamental_div_mod_converse(
            idx,
            degree as int,
            c,
            row,
        );
        assert(crate::permutation::next_in_class(p, idx) == idx);
        assert(sigma[c][row] == prods[idx / (degree as int)][idx % (degree as int)]);
    }
}

} // verus!

verus! {

/// Transfers coset disjointness from the product table to the shift and
/// subgroup sequences.
#[verifier::rlimit(60)]
proof fn lemma_disjoint_transfer(prods: Seq<Seq<u64>>, k_is: Seq<u64>, subgroup: Seq<u64>)
    requires
        prods.len() == k_is.len(),
        forall|i: int| 0 <= i < prods.len() ==> (#[trigger] prods[i]).len() == subgroup.len(),
        forall|i: int, a: int| #![trigger prods[i][a]]
            0 <= i < prods.len() && 0 <= a < subgroup.len()
            ==> prods[i][a] == crate::field::f_mul(k_is[i], subgroup[a]),
        forall|i: int, j: int, a: int, b: int| #![trigger prods[i][a], prods[j][b]]
            0 <= i < prods.len() && 0 <= j < prods.len() && i != j && 0 <= a < prods[i].len()
                && 0 <= b < prods[j].len() ==> prods[i][a] != prods[j][b],
    ensures
        forall|i: int, j: int, a: int, b: int|
            #![trigger k_is[i], k_is[j], subgroup[a], subgroup[b]]
            0 <= i < k_is.len() && 0 <= j < k_is.len() && i != j && 0 <= a < subgroup.len()
                && 0 <= b < subgroup.len()
                ==> crate::field::f_mul(k_is[i], subgroup[a])
                    != crate::field::f_mul(k_is[j], subgroup[b]),
{
    assert forall|i: int, j: int, a: int, b: int|
        #![trigger k_is[i], k_is[j], subgroup[a], subgroup[b]]
        0 <= i < k_is.len() && 0 <= j < k_is.len() && i != j && 0 <= a < subgroup.len()
            && 0 <= b < subgroup.len()
        implies crate::field::f_mul(k_is[i], subgroup[a])
            != crate::field::f_mul(k_is[j], subgroup[b]) by {
        assert(prods[i][a] == crate::field::f_mul(k_is[i], subgroup[a]));
        assert(prods[j][b] == crate::field::f_mul(k_is[j], subgroup[b]));
    }
}

/// Transfers class equality of constrained wires from the forest to the
/// representative map.
#[verifier::rlimit(60)]
proof fn lemma_rep_map_transfer(
    p: Seq<usize>,
    rep_map: Seq<usize>,
    map: Seq<Option<Wire>>,
    ccs: Seq<CopyConstraint>,
    degree: usize,
    n_slots: usize,
)
    requires
        p.len() == n_slots,
        rep_map.len() == n_slots,
        forall|i: int| 0 <= i < n_slots ==> #[trigger] rep_map[i] as int == root_of(p, i),
        forall|k: int| 0 <= k < ccs.len() ==> {
            let sa = target_slot(map, degree as nat, (#[trigger] ccs[k]).a);
            let sb = target_slot(map, degree as nat, ccs[k].b);
            0 <= sa < n_slots && 0 <= sb < n_slots && root_of(p, sa) == root_of(p, sb)
        },
    ensures
        forall|k: int| 0 <= k < ccs.len() ==> {
            let sa = target_slot(map, degree as nat, (#[trigger] ccs[k]).a);
            let sb = target_slot(map, degree as nat, ccs[k].b);
            0 <= sa < n_slots && 0 <= sb < n_slots && rep_map[sa] == rep_map[sb]
        },
{
    assert forall|k: int| 0 <= k < ccs.len() implies {
        let sa = target_slot(map, degree as nat, (#[trigger] ccs[k]).a);
        let sb = target_slot(map, degree as nat, ccs[k].b);
        0 <= sa < n_slots && 0 <= sb < n_slots && rep_map[sa] == rep_map[sb]
    } by {
        let sa = target_slot(map, degree as nat, ccs[k].a);
        let sb = target_slot(map, degree as nat, ccs[k].b);
        assert(0 <= sa < n_slots && 0 <= sb < n_slots && root_of(p, sa) == root_of(p, sb));
        assert(rep_map[sa] as int == root_of(p, sa));
        assert(rep_map[sb] as int == root_of(p, sb));
    }
}

} // verus!

verus! {

/// The permutation phase: union edges and copy constraints into the forest
/// over the routed grid and derive the representative map and the sigma
/// polynomials. Copy-constrained targets end with equal representatives, and
/// with no edges and no constraints every sigma column is the identity on
/// its coset.
#[verifier::rlimit(100)]
fn sigma_phase(
    nr: usize,
    degree: usize,
    degree_bits: usize,
    target_map: &Vec<Option<Wire>>,
    edges: &Vec<(Wire, Wire)>,
    copy_constraints: &Vec<CopyConstraint>,
    prods: &Vec<Vec<u64>>,
    k_is: &Vec<u64>,
    subgroup: &Vec<u64>,
) -> (r: Result<(Vec<usize>, Vec<Vec<u64>>, Vec<Vec<u64>>), CircuitError>)
    requires
        degree >= 1,
        (nr as int) * (degree as int) <= usize::MAX as int,
        map_wires_ok(target_map@, nr, degree as int),
        edges_ok(edges@, nr, degree as int),
        prods@.len() == nr,
        forall|i: int| 0 <= i < nr ==> (#[trigger] prods@[i])@.len() == degree,
        k_is@.len() == nr,
        subgroup@.len() == degree,
        forall|i: int, a: int| #![trigger prods@[i]@[a]]
            0 <= i < nr && 0 <= a < degree
            ==> prods@[i]@[a] == crate::field::f_mul(k_is@[i], subgroup@[a]),
        forall|i: int| 0 <= i < nr ==> #[trigger] k_is@[i] == coset_shift(i as nat),
        forall|j: int| 0 <= j < degree
            ==> #[trigger] subgroup@[j] == subgroup_element(degree_bits as nat, j as nat),
    ensures
        match r {
            Ok((rep_map, sigma_vecs, sigmas)) => {
                &&& rep_map@.len() == nr * degree
                &&& sigma_vecs@.len() == nr
                &&& forall|c: int| 0 <= c < nr ==> (#[trigger] sigma_vecs@[c])@.len() == degree
                &&& sigma_cells_ok(sigma_vecs@.map_values(|v: Vec<u64>| v@), rep_map@, nr as int,
                    degree as nat, degree_bits as nat)
                &&& sigmas@.len() == degree
                &&& forall|row: int, c: int| #![trigger sigmas@[row]@[c]]
                    0 <= row < degree && 0 <= c < nr
                    ==> sigmas@[row]@[c] == sigma_vecs@[c]@[row]
                &&& forall|k: int| 0 <= k < copy_constraints@.len() ==> {
                    let sa = target_slot(
                        target_map@,
                        degree as nat,
                        (#[trigger] copy_constraints@[k]).a,
                    );
                    let sb = target_slot(target_map@, degree as nat, copy_constraints@[k].b);
                    0 <= sa < nr * degree && 0 <= sb < nr * degree
                        && rep_map@[sa] == rep_map@[sb]
                }
                &&& (edges@.len() == 0 && copy_constraints@.len() == 0)
                    ==> forall|c: int, row: int| #![trigger sigma_vecs@[c]@[row]]
                        0 <= c < nr && 0 <= row < degree
                        ==> sigma_vecs@[c]@[row] == crate::field::f_mul(
                            coset_shift(c as nat),
                            subgroup_element(degree_bits as nat, row as nat),
                        )
            },
            Err(e) => e == CircuitError::UnplacedTarget && exists|k: int|
                0 <= k < copy_constraints@.len() && {
                    let cc = #[trigger] copy_constraints@[k];
                    ||| cc.a.index >= target_map@.len()
                    ||| cc.b.index >= target_map@.len()
                    ||| target_map@[cc.a.index as int] is None
                    ||| target_map@[cc.b.index as int] is None
                },
        },
{
    let n_slots = nr * degree;
    let forest = match build_forest(nr, degree, target_map, edges, copy_constraints) {
        Ok(f) => f,
        Err(e) => {
            return Err(e);
        },
    };
    let representative_map = forest.representative_map();
    let sigma_vecs = sigma_polys(&forest, prods, degree);
    let sigmas = transpose_cols(&sigma_vecs, degree);
    proof {
        let sv = sigma_vecs@.map_values(|v: Vec<u64>| v@);
        assert(sigma_cells_ok(sv, representative_map@, nr as int, degree as nat,
            degree_bits as nat)) by {
            reveal(sigma_cells_ok);
            assert forall|c: int, row: int| #![trigger sv[c][row]]
                0 <= c < nr && 0 <= row < degree implies {
                let nxt = rep_next(representative_map@, c * degree + row);
                sv[c][row] == crate::field::f_mul(
                    coset_shift((nxt / degree as int) as nat),
                    subgroup_element(degree_bits as nat, (nxt % degree as int) as nat),
                )
            } by {
                assert((c + 1) * (degree as int) <= (nr as int) * (degree as int))
                    by (nonlinear_arith)
                    requires c < (nr as int) && degree >= 1 && 0 <= c;
                assert(c * (degree as int) + row < (nr as int) * (degree as int))
                    by (nonlinear_arith)
                    requires (c + 1) * (degree as int) <= (nr as int) * (degree as int)
                        && 0 <= row && row < (degree as int) && 0 <= c;
                let idx = c * (degree as int) + row;
                lemma_rep_next_agrees(representative_map@, forest@, idx);
                crate::permutation::lemma_next_in_range(forest@, idx);
                let nxt = crate::permutation::next_in_class(forest@, idx);
                assert((nxt / (degree as int)) < (nr as int)
                    && 0 <= (nxt % (degree as int)) < (degree as int)) by (nonlinear_arith)
                    requires 0 <= nxt && nxt < (nr as int) * (degree as int) && degree >= 1;
                assert(sv[c] == sigma_vecs@[c]@);
                assert(sigma_vecs@[c]@[row] == crate::permutation::sigma_value(
                    forest@,
                    prods.deep_view(),
                    degree as nat,
                    idx,
                ));
                assert(prods.deep_view()[nxt / (degree as int)]
                    == prods@[nxt / (degree as int)]@);
            }
        }
        lemma_rep_map_transfer(
            forest@,
            representative_map@,
            target_map@,
            copy_constraints@,
            degree,
            n_slots,
        );
        if edges@.len() == 0 && copy_constraints@.len() == 0 {
            lemma_identity_sigma(
                forest@,
                sigma_vecs@.map_values(|v: Vec<u64>| v@),
                prods.deep_view(),
                k_is@,
                subgroup@,
                nr,
                degree,
                degree_bits,
            );
            assert forall|c: int, row: int| #![trigger sigma_vecs@[c]@[row]]
                0 <= c < nr && 0 <= row < degree
                implies sigma_vecs@[c]@[row] == crate::field::f_mul(
                    coset_shift(c as nat),
                    subgroup_element(degree_bits as nat, row as nat),
                ) by {
                assert(sigma_vecs@.map_values(|v: Vec<u64>| v@)[c] == sigma_vecs@[c]@);
            }
        }
    }
    Ok((representative_map, sigma_vecs, sigmas))
}


} // verus!

verus! {

/// The fixed-polynomial phase: the constant polynomials, the coset shifts,
/// the evaluation subgroup, and their product table, with the cosets checked
/// pairwise disjoint.
#[verifier::rlimit(100)]
fn fixed_phase(
    instances: &Vec<GateInstance>,
    prefixed: &Vec<PrefixedGate>,
    code_len: usize,
    num_constants: usize,
    nr: usize,
    degree: usize,
    degree_bits: usize,
) -> (r: Result<(Vec<Vec<u64>>, Vec<u64>, Vec<u64>, Vec<Vec<u64>>), CircuitError>)
    requires
        degree >= 1,
        degree as nat == pow2(degree_bits as nat),
        degree_bits <= crate::field::TWO_ADICITY,
        instances@.len() == degree,
        forall|k: int| 0 <= k < instances@.len()
            ==> gate_listed(prefixed@, (#[trigger] instances@[k]).gate),
        forall|i: int| 0 <= i < prefixed@.len()
            ==> (#[trigger] prefixed@[i]).prefix@.len() == code_len,
        code_len <= num_constants,
    ensures
        match r {
            Ok((cv, k_is, subgroup, prods)) => {
                &&& cv@.len() == num_constants
                &&& forall|c: int| 0 <= c < cv@.len() ==> (#[trigger] cv@[c])@.len() == degree
                &&& k_is@.len() == nr
                &&& forall|i: int| 0 <= i < nr ==> #[trigger] k_is@[i] == coset_shift(i as nat)
                &&& forall|i: int| 0 <= i < nr ==> #[trigger] k_is@[i] != 0
                &&& subgroup@.len() == degree
                &&& forall|j: int| 0 <= j < degree
                    ==> #[trigger] subgroup@[j] == subgroup_element(degree_bits as nat, j as nat)
                &&& prods@.len() == nr
                &&& forall|i: int| 0 <= i < nr ==> (#[trigger] prods@[i])@.len() == degree
                &&& forall|i: int, a: int| #![trigger prods@[i]@[a]]
                    0 <= i < nr && 0 <= a < degree
                    ==> prods@[i]@[a] == crate::field::f_mul(k_is@[i], subgroup@[a])
                &&& forall|i: int, j: int, a: int, b: int|
                    #![trigger k_is@[i], k_is@[j], subgroup@[a], subgroup@[b]]
                    0 <= i < nr && 0 <= j < nr && i != j && 0 <= a < degree && 0 <= b < degree
                        ==> crate::field::f_mul(k_is@[i], subgroup@[a])
                            != crate::field::f_mul(k_is@[j], subgroup@[b])
            },
            Err(e) => e == CircuitError::CosetCollision
                && cosets_degenerate(nr, degree_bits as nat),
        },
{
    let constant_vecs = constant_polys(instances, prefixed, code_len, num_constants);
    let k_is = coset_shifts_u64(nr);
    let subgroup = two_adic_subgroup_u64(degree_bits, degree);
    proof {
        assert forall|i: int| 0 <= i < k_is@.len()
            implies (#[trigger] k_is@[i]) < GOLDILOCKS_ORDER by {
            crate::field::lemma_pow_mod_bound(
                crate::field::MULTIPLICATIVE_GROUP_GENERATOR,
                i as nat,
            );
        }
    }
    // A zero shift would degenerate its whole coset; refuse it outright.
    let mut zi: usize = 0;
    while zi < k_is.len()
        invariant
            zi <= k_is@.len(),
            k_is@.len() == nr,
            forall|i: int| 0 <= i < nr ==> #[trigger] k_is@[i] == coset_shift(i as nat),
            forall|i: int| 0 <= i < zi ==> #[trigger] k_is@[i] != 0,
        decreases k_is@.len() - zi,
    {
        if k_is[zi] == 0 {
            proof {
                assert(coset_shift(zi as nat) == 0);
            }
            return Err(CircuitError::CosetCollision);
        }
        zi = zi + 1;
    }
    let prods = coset_products(&k_is, &subgroup);
    if !all_cosets_disjoint(&prods) {
        proof {
            let (i, j, a, c) = choose|i: int, j: int, a: int, c: int|
                #![trigger prods@[i]@[a], prods@[j]@[c]]
                0 <= i < prods@.len() && 0 <= j < prods@.len() && i != j
                    && 0 <= a < prods@[i]@.len() && 0 <= c < prods@[j]@.len()
                    && prods@[i]@[a] == prods@[j]@[c];
            assert(crate::field::f_mul(coset_shift(i as nat),
                subgroup_element(degree_bits as nat, a as nat))
                == crate::field::f_mul(coset_shift(j as nat),
                subgroup_element(degree_bits as nat, c as nat)));
        }
        return Err(CircuitError::CosetCollision);
    }
    proof {
        lemma_disjoint_transfer(prods.deep_view(), k_is@, subgroup@);
    }
    Ok((constant_vecs, k_is, subgroup, prods))
}

/// The generator phase: every watched target must resolve to a placed wire,
/// and the dependency index lists, per representative, the generators
/// watching its class.
fn generator_phase(
    generators: &Vec<Generator>,
    target_map: &Vec<Option<Wire>>,
    representative_map: &Vec<usize>,
    degree: usize,
    n_slots: usize,
) -> (r: Result<Vec<Vec<usize>>, CircuitError>)
    requires
        degree >= 1,
    ensures
        match r {
            Ok(buckets) => buckets@.len() == n_slots
                && generator_index_ok(buckets@, generators@, target_map@,
                    representative_map@, degree as nat),
            Err(e) => e == CircuitError::UnplacedTarget && exists|g: int, w: int|
                0 <= g < generators@.len() && 0 <= w < generators@[g].watches@.len() && {
                    let t = #[trigger] generators@[g].watches@[w];
                    t.index >= target_map@.len() || target_map@[t.index as int] is None
                },
        },
{
    let mut gci: usize = 0;
    while gci < generators.len()
        invariant
            gci <= generators@.len(),
        decreases generators@.len() - gci,
    {
        let mut wci: usize = 0;
        while wci < generators[gci].watches.len()
            invariant
                gci < generators@.len(),
                wci <= generators@[gci as int].watches@.len(),
            decreases generators@[gci as int].watches@.len() - wci,
        {
            let t = generators[gci].watches[wci];
            if t.index >= target_map.len() {
                return Err(CircuitError::UnplacedTarget);
            }
            match target_map[t.index] {
                Some(_) => {},
                None => {
                    return Err(CircuitError::UnplacedTarget);
                },
            }
            wci = wci + 1;
        }
        gci = gci + 1;
    }
    let buckets = generator_buckets(generators, target_map, representative_map, degree, n_slots);
    proof {
        assert(generator_index_ok(buckets@, generators@, target_map@, representative_map@,
            degree as nat)) by {
            reveal(generator_index_ok);
        }
    }
    Ok(buckets)
}

} // verus!

verus! {

/// The commitment phase, summarized by the batch and cap shapes alone.
#[verifier::rlimit(100)]
fn commit_light(
    constant_vecs: Vec<Vec<u64>>,
    sigma_vecs: &Vec<Vec<u64>>,
    prefixed: &Vec<PrefixedGate>,
    cap_height: usize,
    degree: usize,
) -> (r: Result<(Vec<Vec<u64>>, Vec<HashOut>, Vec<HashOut>, HashOut), CircuitError>)
    requires
        cap_height <= 32,
        forall|c: int| 0 <= c < constant_vecs@.len()
            ==> (#[trigger] constant_vecs@[c])@.len() == degree,
        forall|c: int| 0 <= c < sigma_vecs@.len()
            ==> (#[trigger] sigma_vecs@[c])@.len() == degree,
    ensures
        match r {
            Ok((batch, vcap, pcap, digest)) => {
                &&& batch@.len() == constant_vecs@.len() + sigma_vecs@.len()
                &&& forall|c: int| 0 <= c < batch@.len()
                    ==> (#[trigger] batch@[c])@.len() == degree
                &&& forall|c: int| 0 <= c < constant_vecs@.len()
                    ==> (#[trigger] batch@[c])@ == constant_vecs@[c]@
                &&& forall|c: int| 0 <= c < sigma_vecs@.len()
                    ==> (#[trigger] batch@[constant_vecs@.len() + c])@ == sigma_vecs@[c]@
                &&& vcap@.len() == pow2(cap_height as nat)
                &&& pcap@ == vcap@
                &&& cap_contents_ok(vcap@, batch.deep_view())
                &&& digest_matches(digest, vcap@, prefixed@)
            },
            Err(e) => e == CircuitError::DegreeTooLarge
                && pow2(cap_height as nat) > usize::MAX,
        },
{
    let mut batch = constant_vecs;
    let nc_cols = batch.len();
    let mut sc: usize = 0;
    while sc < sigma_vecs.len()
        invariant
            sc <= sigma_vecs@.len(),
            batch@.len() == nc_cols + sc,
            forall|c: int| 0 <= c < nc_cols ==> (#[trigger] batch@[c])@ == constant_vecs@[c]@,
            forall|c: int| 0 <= c < sc
                ==> (#[trigger] batch@[nc_cols + c])@ == sigma_vecs@[c]@,
        decreases sigma_vecs@.len() - sc,
    {
        batch.push(copy_u64s(&sigma_vecs[sc]));
        sc = sc + 1;
    }
    let flat = flatten_light(&batch);
    let verifier_cap = match cap_light(&flat, cap_height, Ghost(batch.deep_view())) {
        Ok(c) => c,
        Err(e) => {
            return Err(e);
        },
    };
    let mut prover_cap: Vec<HashOut> = Vec::new();
    let mut cpi: usize = 0;
    while cpi < verifier_cap.len()
        invariant
            cpi <= verifier_cap@.len(),
            prover_cap@.len() == cpi,
            forall|i: int| 0 <= i < cpi ==> #[trigger] prover_cap@[i] == verifier_cap@[i],
        decreases verifier_cap@.len() - cpi,
    {
        prover_cap.push(verifier_cap[cpi]);
        cpi = cpi + 1;
    }
    proof {
        assert(prover_cap@ =~= verifier_cap@);
    }
    let circuit_digest = digest_light(&verifier_cap, prefixed);
    proof {
        assert forall|c: int| 0 <= c < batch@.len()
            implies (#[trigger] batch@[c])@.len() == degree by {
            if c >= nc_cols {
                assert(batch@[nc_cols + (c - nc_cols)]@ == sigma_vecs@[c - nc_cols]@);
            }
        }
    }
    Ok((batch, verifier_cap, prover_cap, circuit_digest))
}

/// The circuit digest over the cap and the encoded registry.
fn digest_light(cap: &Vec<HashOut>, prefixed: &Vec<PrefixedGate>) -> (r: HashOut)
    ensures
        digest_matches(r, cap@, prefixed@),
{
    let capflat = cap_flatten(cap);
    let enc = encode_gates(prefixed);
    let digest_input = concat_u64(capflat, &enc);
    let d = hash_values(0, &digest_input);
    proof {
        assert(digest_matches(d, cap@, prefixed@)) by {
            reveal(digest_matches);
        }
    }
    d
}

/// The FFT table, summarized by success alone.
fn fft_light(bits: usize) -> (r: Option<Vec<Vec<u64>>>)
    requires
        bits <= crate::field::TWO_ADICITY,
    ensures
        match r {
            Some(t) => t@.len() == bits,
            None => exists|k: nat| k < crate::field::TWO_ADICITY
                && #[trigger] pow2(k) > usize::MAX,
        },
{
    fft_root_table_bits(bits)
}

} // verus!

verus! {

/// One digest per cap slot over the flattened batch.
fn cap_light(
    flat: &Vec<u64>,
    cap_height: usize,
    batch: Ghost<Seq<Seq<u64>>>,
) -> (r: Result<Vec<HashOut>, CircuitError>)
    requires
        cap_height <= 32,
        flat@ == flatten_upto(batch@, batch@.len() as int),
    ensures
        match r {
            Ok(cap) => cap@.len() == pow2(cap_height as nat)
                && cap_contents_ok(cap@, batch@),
            Err(e) => e == CircuitError::DegreeTooLarge
                && pow2(cap_height as nat) > usize::MAX,
        },
{
    let cap_len = match crate::util::checked_pow2(cap_height) {
        Some(n) => n,
        None => {
            return Err(CircuitError::DegreeTooLarge);
        },
    };
    proof {
        vstd::arithmetic::power2::lemma2_to64();
        if cap_height < 32 {
            vstd::arithmetic::power2::lemma_pow2_strictly_increases(cap_height as nat, 32);
        }
    }
    let mut cap: Vec<HashOut> = Vec::new();
    let mut capi: usize = 0;
    while capi < cap_len
        invariant
            capi <= cap_len,
            cap_len as int <= 0x1_0000_0000int,
            cap@.len() == capi,
            flat@ == flatten_upto(batch@, batch@.len() as int),
            forall|i: int| 0 <= i < capi
                ==> #[trigger] cap@[i] == hash_out_of(
                    i as nat,
                    flatten_upto(batch@, batch@.len() as int),
                ),
        decreases cap_len - capi,
    {
        let h = hash_values(capi, flat);
        cap.push(h);
        capi = capi + 1;
    }
    proof {
        assert(cap_contents_ok(cap@, batch@)) by {
            reveal(cap_contents_ok);
        }
    }
    Ok(cap)
}

} // verus!

verus! {

/// Flattens the batch column after column.
fn flatten_light(polys: &Vec<Vec<u64>>) -> (r: Vec<u64>)
    ensures
        r@ == flatten_upto(polys.deep_view(), polys@.len() as int),
{
    flatten_cols(polys)
}

} // verus!
