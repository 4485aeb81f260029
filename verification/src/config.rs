//! The immutable circuit configuration and its eagerly checked validity: the
//! conjectured FRI security derived from the field size and the query
//! parameters must reach the configured security target, and the structural
//! sizes must stay within the ranges the compiler arithmetic assumes.

use vstd::prelude::*;
use crate::field::EXTENSION_FIELD_BITS;

verus! {

/// Parameters of the FRI commitment scheme that this compiler validates and
/// records; the protocol itself runs elsewhere.
#[derive(Clone, Copy, PartialEq, Eq, Structural, Debug)]
pub struct FriConfig {
    /// The log of the blowup factor of the low-degree extension.
    pub rate_bits: usize,
    /// The log of the number of Merkle roots kept in a commitment cap.
    pub cap_height: usize,
    /// Query security bits bought by proof-of-work grinding.
    pub proof_of_work_bits: usize,
    /// The number of FRI query rounds.
    pub num_query_rounds: usize,
}

/// The immutable configuration of a circuit build.
#[derive(Clone, Copy, PartialEq, Eq, Structural, Debug)]
pub struct CircuitConfig {
    /// Wire columns per gate row.
    pub num_wires: usize,
    /// The leading columns that take part in the permutation argument.
    pub num_routed_wires: usize,
    /// The targeted security level, in bits.
    pub security_bits: usize,
    /// The largest quotient-degree factor the caller will accept.
    pub max_quotient_degree_factor: usize,
    /// Whether base-field arithmetic operations use the dedicated base-field
    /// gate rather than the extension-field one.
    pub use_base_arithmetic_gate: bool,
    pub fri_config: FriConfig,
}

impl CircuitConfig {
    /// Structural bounds assumed throughout compilation: at least one routed
    /// column, routed columns within the row, and every count small enough
    /// that the derived products stay far below machine and field limits.
    pub open spec fn structure_ok(self) -> bool {
        &&& 1 <= self.num_routed_wires
        &&& self.num_routed_wires <= self.num_wires
        &&& self.num_wires <= 0x3FFF_FFFFusize
        &&& self.max_quotient_degree_factor <= 0x3FFF_FFFFusize
        &&& self.fri_config.rate_bits <= 32
        &&& self.fri_config.cap_height <= 32
    }

    /// The conjectured FRI security: the query rounds each buy `rate_bits`
    /// bits, grinding buys `proof_of_work_bits`, and the extension field size
    /// caps the total. The configuration is secure when that reaches the
    /// target.
    pub open spec fn security_ok(self) -> bool {
        let query_bits = self.fri_config.num_query_rounds * self.fri_config.rate_bits
            + self.fri_config.proof_of_work_bits;
        let fri_bits = if query_bits < EXTENSION_FIELD_BITS as int {
            query_bits
        } else {
            EXTENSION_FIELD_BITS as int
        };
        fri_bits >= self.security_bits
    }

    pub open spec fn valid(self) -> bool {
        self.structure_ok() && self.security_ok()
    }

    /// Checks both the security gate and the structural bounds.
    pub fn is_valid(&self) -> (r: bool)
        ensures
            r == self.valid(),
    {
        let structure = 1 <= self.num_routed_wires
            && self.num_routed_wires <= self.num_wires
            && self.num_wires <= 0x3FFF_FFFFusize
            && self.max_quotient_degree_factor <= 0x3FFF_FFFFusize
            && self.fri_config.rate_bits <= 32
            && self.fri_config.cap_height <= 32;
        proof {
            let nq = self.fri_config.num_query_rounds as int;
            let rb = self.fri_config.rate_bits as int;
            let pw = self.fri_config.proof_of_work_bits as int;
            assert(nq * rb + pw < u128::MAX) by (nonlinear_arith)
                requires 0 <= nq && nq <= (u64::MAX as int) && 0 <= rb && rb <= (u64::MAX as int)
                    && 0 <= pw && pw <= (u64::MAX as int);
        }
        let query_bits = (self.fri_config.num_query_rounds as u128)
            * (self.fri_config.rate_bits as u128)
            + (self.fri_config.proof_of_work_bits as u128);
        let fri_bits = if query_bits < EXTENSION_FIELD_BITS as u128 {
            query_bits
        } else {
            EXTENSION_FIELD_BITS as u128
        };
        structure && fri_bits >= self.security_bits as u128
    }
}

/// Every failure this compiler can report; all of them are fatal
/// configuration errors, never recoverable runtime conditions.
#[derive(Clone, Copy, PartialEq, Eq, Structural, Debug)]
pub enum CircuitError {
    /// The conjectured FRI security falls short of the configured target,
    /// or a structural bound of the configuration is broken.
    InvalidConfig,
    /// A gate was declared with the wrong number of constants.
    ConstantCountMismatch,
    /// A gate needs more wires than the configuration provides, or declares
    /// sizes beyond the fixed bounds.
    GateTooWide,
    /// An operation names more targets than there are routed wires.
    TooManyOperationTargets,
    /// A copy constraint or a generator references a target that was never
    /// placed on the grid.
    UnplacedTarget,
    /// The padded circuit would exceed the two-adicity of the field or the
    /// machine word.
    DegreeTooLarge,
    /// No admissible quotient-degree factor lies in the configured range.
    EmptyQuotientRange,
    /// Two routed columns were assigned overlapping cosets.
    CosetCollision,
}

} // verus!
