//! A compiler from high-level arithmetic-circuit descriptions to the concrete
//! algebraic artifacts consumed by a PLONK-style proof system over the
//! Goldilocks field: a constraint system padded to a power-of-two degree, a
//! permutation argument encoding wire equalities as sigma polynomials, a
//! commitment over the circuit's fixed polynomials, and the dependency index
//! used by a downstream witness generator.

pub mod field;
pub mod util;
pub mod forest;
pub mod target;
pub mod gates;
pub mod config;
pub mod fri;
pub mod quotient;
pub mod hashing;
pub mod permutation;
pub mod circuit_data;
pub mod builder;

use vstd::prelude::*;

verus! {

} // verus!
