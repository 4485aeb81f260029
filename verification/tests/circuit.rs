use circuit_builder::builder::CircuitBuilder;
use circuit_builder::config::{CircuitConfig, CircuitError, FriConfig};
use circuit_builder::gates::GateType;

fn small_config() -> CircuitConfig {
    CircuitConfig {
        num_wires: 8,
        num_routed_wires: 4,
        security_bits: 16,
        max_quotient_degree_factor: 8,
        use_base_arithmetic_gate: true,
        fri_config: FriConfig { rate_bits: 3, cap_height: 1, proof_of_work_bits: 10, num_query_rounds: 10 },
    }
}

#[test]
fn security_gate_rejects_weak_config() {
    let mut cfg = small_config();
    cfg.security_bits = 1000;
    assert!(matches!(CircuitBuilder::new(cfg), Err(CircuitError::InvalidConfig)));
}

#[test]
fn constant_dedup_and_recovery() {
    let mut b = CircuitBuilder::new(small_config()).unwrap();
    let t1 = b.constant(42);
    let t2 = b.constant(42);
    assert_eq!(t1, t2);
    assert_eq!(b.target_as_constant(t1), Some(42));
    let t3 = b.constant(7);
    assert_ne!(t1, t3);
    assert_eq!(b.target_as_constant(t3), Some(7));
}

#[test]
fn empty_circuit_builds_identity_sigma() {
    let b = CircuitBuilder::new(small_config()).unwrap();
    let d = b.build().unwrap();
    let degree = 1usize << d.common.degree_bits;
    assert!(degree >= 1);
    assert_eq!(d.prover_only.subgroup.len(), degree);
    assert_eq!(d.common.k_is.len(), 4);
    // identity sigma: sigma[c][row] == k_c * omega^row mod p
    let p: u128 = 0xFFFF_FFFF_0000_0001;
    for c in 0..4usize {
        for row in 0..degree {
            let expect = ((d.common.k_is[c] as u128 * d.prover_only.subgroup[row] as u128) % p) as u64;
            assert_eq!(d.prover_only.constants_sigmas_values[d.common.num_constants + c][row], expect);
        }
    }
}

#[test]
fn connect_joins_classes_and_build_is_deterministic() {
    let build_one = || {
        let mut b = CircuitBuilder::new(small_config()).unwrap();
        let x = b.constant(5);
        let y = b.constant(9);
        b.connect(x, y);
        b.register_public_input(x);
        b.build().unwrap()
    };
    let d1 = build_one();
    let d2 = build_one();
    assert_eq!(d1.common, d2.common);
    assert_eq!(d1.verifier_only, d2.verifier_only);
    let deg = 1usize << d1.common.degree_bits;
    let wx = d1.prover_only.target_wires[0].unwrap();
    let wy = d1.prover_only.target_wires[1].unwrap();
    let sx = wx.col * deg + wx.row;
    let sy = wy.col * deg + wy.row;
    assert_eq!(d1.prover_only.representative_map[sx], d1.prover_only.representative_map[sy]);
}

#[test]
fn quotient_factor_in_range_and_padding() {
    let mut b = CircuitBuilder::new(small_config()).unwrap();
    let _ = b.constant(1);
    let _ = b.constant(2);
    let d = b.build().unwrap();
    let q = d.common.quotient_degree_factor;
    assert!(q >= 1 && q <= 8 && q <= 1 << 3);
    let degree = 1usize << d.common.degree_bits;
    // one constant row plus one public-input row, padded to a power of two
    assert!(degree >= 2);
}

#[test]
fn coset_shifts_are_nonzero_and_distinct() {
    let b = CircuitBuilder::new(small_config()).unwrap();
    let d = b.build().unwrap();
    for i in 0..d.common.k_is.len() {
        assert_ne!(d.common.k_is[i], 0);
        for j in 0..i {
            assert_ne!(d.common.k_is[i], d.common.k_is[j]);
        }
    }
}

#[test]
fn add_gate_accepts_fitting_gates_and_rejects_wide_ones() {
    let mut b = CircuitBuilder::new(small_config()).unwrap();
    let wide = GateType { kind: 9, num_wires: 100, num_constants: 0, num_constraints: 1, degree: 2 };
    assert!(matches!(b.add_gate(wide, vec![]), Err(CircuitError::GateTooWide)));
    let fitting = GateType { kind: 9, num_wires: 4, num_constants: 2, num_constraints: 1, degree: 2 };
    assert!(matches!(b.add_gate(fitting, vec![1]), Err(CircuitError::ConstantCountMismatch)));
    let row = b.add_gate(fitting, vec![7, 8]).unwrap();
    assert_eq!(row, 0);
    let d = b.build().unwrap();
    assert!(1usize << d.common.degree_bits >= 2);
}

#[test]
fn zero_is_one_target() {
    let mut b = CircuitBuilder::new(small_config()).unwrap();
    let z1 = b.zero();
    let z2 = b.zero();
    assert_eq!(z1, z2);
    assert_eq!(b.target_as_constant(z1), Some(0));
}
