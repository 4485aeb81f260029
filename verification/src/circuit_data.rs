//! The three artifacts of one compilation: the public circuit description
//! shared by prover and verifier, the verifier-held commitment cap, and the
//! prover-held data needed to build witness polynomials. All three come from
//! one pass over the builder and are immutable afterwards.

use vstd::prelude::*;
use crate::config::CircuitConfig;
use crate::fri::FriParams;
use crate::gates::PrefixedGate;
use crate::hashing::HashOut;
use crate::target::{Generator, MarkedTargets, Target, Wire};

verus! {

/// The public, deterministic description of the compiled circuit.
#[derive(Clone, PartialEq, Eq, Debug)]
pub struct CommonCircuitData {
    pub config: CircuitConfig,
    pub fri_params: FriParams,
    /// The log of the padded number of gate rows.
    pub degree_bits: usize,
    /// The registry in stable order, each with its selector code.
    pub gates: Vec<PrefixedGate>,
    pub quotient_degree_factor: usize,
    /// The largest constraint count over the registry.
    pub num_gate_constraints: usize,
    /// The number of constant polynomial columns.
    pub num_constants: usize,
    /// The number of targets the builder allocated.
    pub num_targets: usize,
    /// One coset shift per routed column.
    pub k_is: Vec<u64>,
    pub num_partial_products: usize,
    /// The fingerprint binding proofs to this circuit: a deterministic
    /// multiply-and-add digest over the commitment cap and the encoded
    /// registry. It identifies a circuit reproducibly; collision resistance
    /// is not modelled here.
    pub circuit_digest: HashOut,
}

/// The verifier's share: the cap over the constants-and-sigmas commitment.
#[derive(Clone, PartialEq, Eq, Debug)]
pub struct VerifierOnlyCircuitData {
    pub constants_sigmas_cap: Vec<HashOut>,
}

/// The prover's share: everything needed to build witness polynomials and
/// open the commitment.
pub struct ProverOnlyCircuitData {
    pub generators: Vec<Generator>,
    /// For each forest representative, the generators watching a target in
    /// its class, deduplicated and in ascending order.
    pub generator_indices_by_watches: Vec<Vec<usize>>,
    /// The committed batch: constant polynomials then sigma polynomials,
    /// column-major.
    pub constants_sigmas_values: Vec<Vec<u64>>,
    pub constants_sigmas_cap: Vec<HashOut>,
    /// The sigma values, row-major.
    pub sigmas: Vec<Vec<u64>>,
    /// The evaluation subgroup of the padded degree.
    pub subgroup: Vec<u64>,
    pub public_inputs: Vec<Target>,
    pub marked_targets: Vec<MarkedTargets>,
    /// The forest representative of every routed wire slot.
    pub representative_map: Vec<usize>,
    /// Where each target was placed, if anywhere.
    pub target_wires: Vec<Option<Wire>>,
    /// FFT roots shared by later low-degree extensions.
    pub fft_root_table: Vec<Vec<u64>>,
}

/// A full compiled circuit.
pub struct CircuitData {
    pub prover_only: ProverOnlyCircuitData,
    pub verifier_only: VerifierOnlyCircuitData,
    pub common: CommonCircuitData,
}

/// The prover's view of a compiled circuit.
pub struct ProverCircuitData {
    pub prover_only: ProverOnlyCircuitData,
    pub common: CommonCircuitData,
}

/// The verifier's view of a compiled circuit.
pub struct VerifierCircuitData {
    pub verifier_only: VerifierOnlyCircuitData,
    pub common: CommonCircuitData,
}

} // verus!
