//! Symbolic identifiers used while describing a circuit: targets, wires, and
//! the composite target shapes built from them, together with the declarative
//! records (copy constraints, generators, marked targets) that the builder
//! accumulates.

use vstd::prelude::*;

verus! {

/// A symbolic, process-local identifier for a value not yet placed on the
/// circuit grid. Targets are allocated monotonically and own no value.
#[derive(Clone, Copy, PartialEq, Eq, Structural, Debug)]
pub struct Target {
    pub index: usize,
}

/// A concrete position in the circuit's gate grid: row = gate instance
/// index, column in `[0, num_wires)`.
#[derive(Clone, Copy, PartialEq, Eq, Structural, Debug)]
pub struct Wire {
    pub row: usize,
    pub col: usize,
}

/// A target the caller asserts to be boolean-valued. Building one generates
/// no constraint; the obligation rests on the caller.
#[derive(Clone, Copy, PartialEq, Eq, Structural, Debug)]
pub struct BoolTarget {
    pub target: Target,
}

impl BoolTarget {
    /// Wraps a target without adding a constraint that its value is zero or
    /// one; that obligation stays with the caller.
    pub fn new_unchecked(target: Target) -> (r: BoolTarget)
        ensures
            r.target == target,
    {
        BoolTarget { target }
    }
}

/// A target in the degree-two extension field: one target per coefficient.
#[derive(Clone, Copy, PartialEq, Eq, Structural, Debug)]
pub struct ExtensionTarget {
    pub t0: Target,
    pub t1: Target,
}

/// A target holding a 32-bit value.
#[derive(Clone, Copy, PartialEq, Eq, Structural, Debug)]
pub struct U32Target {
    pub target: Target,
}

/// A constant of the degree-two extension field, coefficient-wise canonical.
#[derive(Clone, Copy, PartialEq, Eq, Structural, Debug)]
pub struct ExtensionValue {
    pub c0: u64,
    pub c1: u64,
}

/// The four targets that stand for one hash output.
#[derive(Clone, Copy, PartialEq, Eq, Structural, Debug)]
pub struct HashOutTarget {
    pub e0: Target,
    pub e1: Target,
    pub e2: Target,
    pub e3: Target,
}

/// The targets standing for a Merkle cap: one hash per cap entry.
#[derive(Clone, PartialEq, Eq, Debug)]
pub struct MerkleCapTarget(pub Vec<HashOutTarget>);

/// Verbosity attached to a named diagnostic scope.
#[derive(Clone, Copy, PartialEq, Eq, Structural, Debug)]
pub enum Level {
    Error,
    Warn,
    Info,
    Debug,
    Trace,
}

/// A declared equality between two targets, enforced later through the
/// permutation argument. Purely declarative until compilation.
#[derive(Clone, Copy, PartialEq, Eq, Structural, Debug)]
pub struct CopyConstraint {
    pub a: Target,
    pub b: Target,
}

/// A group of targets whose values the prover should display.
#[derive(Clone, Copy, PartialEq, Eq, Structural, Debug)]
pub enum Markable {
    Target(Target),
    Extension(ExtensionTarget),
    Hash(HashOutTarget),
}

/// A marked group of targets with its display name.
pub struct MarkedTargets {
    pub targets: Markable,
    pub name: String,
}

/// A witness generator as this compiler sees it: opaque except for the list
/// of targets whose values it waits on.
pub struct Generator {
    pub watches: Vec<Target>,
}

impl Generator {
    /// A generator that copies `src` to `dst`; it runs once `src` is known,
    /// so `src` is the one target it watches.
    #[allow(unused_variables)]
    pub fn copy(src: Target, dst: Target) -> (r: Generator)
        ensures
            r.watches@ == seq![src],
    {
        let mut watches: Vec<Target> = Vec::new();
        watches.push(src);
        proof {
            assert(watches@ =~= seq![src]);
        }
        Generator { watches }
    }
}

} // verus!
