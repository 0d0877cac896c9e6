use logosq::{GateKind, Operation, QuantumCircuit, QuantumState, SimError, MAX_QUBITS};
use num_complex::Complex64;

const TOL: f64 = 1e-9;

fn c(re: f64, im: f64) -> Complex64 {
    Complex64::new(re, im)
}

fn matrix(g: GateKind<f64>) -> [[Complex64; 2]; 2] {
    let s = 1.0 / 2.0_f64.sqrt();
    match g {
        GateKind::Hadamard => [[c(s, 0.0), c(s, 0.0)], [c(s, 0.0), c(-s, 0.0)]],
        GateKind::PauliX => [[c(0.0, 0.0), c(1.0, 0.0)], [c(1.0, 0.0), c(0.0, 0.0)]],
        GateKind::PauliY => [[c(0.0, 0.0), c(0.0, -1.0)], [c(0.0, 1.0), c(0.0, 0.0)]],
        GateKind::PauliZ => [[c(1.0, 0.0), c(0.0, 0.0)], [c(0.0, 0.0), c(-1.0, 0.0)]],
        GateKind::Rx(t) => {
            let (ch, sh) = ((t / 2.0).cos(), (t / 2.0).sin());
            [[c(ch, 0.0), c(0.0, -sh)], [c(0.0, -sh), c(ch, 0.0)]]
        }
        GateKind::Ry(t) => {
            let (ch, sh) = ((t / 2.0).cos(), (t / 2.0).sin());
            [[c(ch, 0.0), c(-sh, 0.0)], [c(sh, 0.0), c(ch, 0.0)]]
        }
        GateKind::Rz(t) => [
            [c(0.0, -t / 2.0).exp(), c(0.0, 0.0)],
            [c(0.0, 0.0), c(0.0, t / 2.0).exp()],
        ],
    }
}

fn apply(g: GateKind<f64>, a: Complex64, b: Complex64) -> (Complex64, Complex64) {
    let m = matrix(g);
    (m[0][0] * a + m[0][1] * b, m[1][0] * a + m[1][1] * b)
}

fn ground(n: usize) -> QuantumState<Complex64> {
    QuantumState::new(n, c(0.0, 0.0), c(1.0, 0.0)).unwrap()
}

fn run(circuit: &QuantumCircuit<f64>) -> Result<QuantumState<Complex64>, SimError> {
    circuit.execute(c(0.0, 0.0), c(1.0, 0.0), &apply)
}

fn prob(s: &QuantumState<Complex64>, i: usize) -> f64 {
    s.get_probability(i, &|a: Complex64| a.norm_sqr(), 0.0)
}

fn close(a: Complex64, b: Complex64) -> bool {
    (a - b).norm() < TOL
}

fn same_amplitudes(a: &QuantumState<Complex64>, b: &QuantumState<Complex64>) -> bool {
    a.amplitudes().len() == b.amplitudes().len()
        && a.amplitudes().iter().zip(b.amplitudes().iter()).all(|(x, y)| close(*x, *y))
}

#[test]
fn new_is_ground_state() {
    for n in 0..6 {
        let s = ground(n);
        assert_eq!(s.num_qubits(), n);
        assert_eq!(s.amplitudes().len(), 1 << n);
        assert_eq!(s.amplitudes()[0], c(1.0, 0.0));
        for i in 1..(1 << n) {
            assert_eq!(s.amplitudes()[i], c(0.0, 0.0));
        }
        let total: f64 = (0..(1 << n)).map(|i| prob(&s, i)).sum();
        assert!((total - 1.0).abs() < TOL);
    }
}

#[test]
fn new_refuses_register_over_limit() {
    let r = QuantumState::new(MAX_QUBITS + 1, c(0.0, 0.0), c(1.0, 0.0));
    assert!(matches!(r, Err(SimError::CapacityExceeded)));
    let r = QuantumState::new(usize::MAX, 0u8, 1u8);
    assert!(matches!(r, Err(SimError::CapacityExceeded)));
}

#[test]
fn hadamard_twice_restores_state() {
    let mut s = ground(3);
    s.apply_single_gate(GateKind::Rx(0.7), 0, &apply).unwrap();
    s.apply_single_gate(GateKind::Ry(1.3), 2, &apply).unwrap();
    s.apply_controlled_gate(GateKind::PauliX, 0, 1, &apply).unwrap();
    let mut before_copy = ground(3);
    before_copy.apply_single_gate(GateKind::Rx(0.7), 0, &apply).unwrap();
    before_copy.apply_single_gate(GateKind::Ry(1.3), 2, &apply).unwrap();
    before_copy.apply_controlled_gate(GateKind::PauliX, 0, 1, &apply).unwrap();
    for q in 0..3 {
        s.apply_single_gate(GateKind::Hadamard, q, &apply).unwrap();
        s.apply_single_gate(GateKind::Hadamard, q, &apply).unwrap();
        assert!(same_amplitudes(&s, &before_copy));
    }
}

#[test]
fn hadamard_on_ground_gives_equal_superposition() {
    let mut s = ground(1);
    s.apply_single_gate(GateKind::Hadamard, 0, &apply).unwrap();
    let h = 1.0 / 2.0_f64.sqrt();
    assert!(close(s.amplitudes()[0], c(h, 0.0)));
    assert!(close(s.amplitudes()[1], c(h, 0.0)));
    assert!((prob(&s, 0) - 0.5).abs() < TOL);
    assert!((prob(&s, 1) - 0.5).abs() < TOL);
}

#[test]
fn pauli_x_on_qubit_zero_of_ground() {
    for n in 1..6 {
        let mut s = ground(n);
        s.apply_single_gate(GateKind::PauliX, 0, &apply).unwrap();
        for i in 0..(1 << n) {
            let want = if i == 1 { c(1.0, 0.0) } else { c(0.0, 0.0) };
            assert_eq!(s.amplitudes()[i], want);
        }
    }
}

#[test]
fn pauli_x_on_higher_qubit_sets_that_bit() {
    let mut s = ground(3);
    s.apply_single_gate(GateKind::PauliX, 2, &apply).unwrap();
    assert_eq!(s.amplitudes()[4], c(1.0, 0.0));
    assert_eq!(s.amplitudes()[0], c(0.0, 0.0));
}

#[test]
fn pauli_y_and_z_phases() {
    let mut s = ground(1);
    s.apply_single_gate(GateKind::PauliY, 0, &apply).unwrap();
    assert!(close(s.amplitudes()[1], c(0.0, 1.0)));
    assert!(close(s.amplitudes()[0], c(0.0, 0.0)));
    let mut t = ground(1);
    t.apply_single_gate(GateKind::PauliX, 0, &apply).unwrap();
    t.apply_single_gate(GateKind::PauliZ, 0, &apply).unwrap();
    assert!(close(t.amplitudes()[1], c(-1.0, 0.0)));
}

#[test]
fn ghz_state_has_two_outcomes() {
    for n in 2..8 {
        let mut circuit: QuantumCircuit<f64> = QuantumCircuit::new(n);
        circuit.h(0);
        for k in 1..n {
            circuit.cnot(0, k);
        }
        let s = run(&circuit).unwrap();
        let last = (1usize << n) - 1;
        for i in 0..(1 << n) {
            let p = prob(&s, i);
            if i == 0 || i == last {
                assert!((p - 0.5).abs() < TOL);
            } else {
                assert!(p.abs() < TOL);
            }
        }
    }
}

#[test]
fn rz_changes_phase_only() {
    for basis in 0..2 {
        let mut s = ground(1);
        if basis == 1 {
            s.apply_single_gate(GateKind::PauliX, 0, &apply).unwrap();
        }
        let before: Vec<f64> = s.amplitudes().iter().map(|a| a.norm()).collect();
        s.apply_single_gate(GateKind::Rz(1.1), 0, &apply).unwrap();
        let after: Vec<f64> = s.amplitudes().iter().map(|a| a.norm()).collect();
        for i in 0..2 {
            assert!((before[i] - after[i]).abs() < TOL);
        }
        let expected = if basis == 0 { c(0.0, -0.55).exp() } else { c(0.0, 0.55).exp() };
        assert!(close(s.amplitudes()[basis], expected));
    }
}

#[test]
fn execute_twice_gives_equal_states() {
    let mut circuit: QuantumCircuit<f64> = QuantumCircuit::new(4);
    circuit.h(0).rx(1, 0.4).ry(2, 2.2).rz(3, -0.9).cnot(0, 3).y(1).z(2).x(3).cnot(2, 1);
    let a = run(&circuit).unwrap();
    let b = run(&circuit).unwrap();
    assert!(same_amplitudes(&a, &b));
    assert_eq!(circuit.operations.len(), 9);
}

#[test]
fn rx_round_trip_is_identity() {
    for &theta in &[0.0, 0.3, 1.7, -2.5, 3.14159] {
        let mut circuit: QuantumCircuit<f64> = QuantumCircuit::new(2);
        circuit.h(0).ry(1, 0.8).cnot(0, 1);
        let reference = run(&circuit).unwrap();
        circuit.rx(1, theta).rx(1, -theta);
        let s = run(&circuit).unwrap();
        assert!(same_amplitudes(&s, &reference));
    }
}

#[test]
fn probability_past_last_index_is_zero() {
    let s = ground(2);
    assert_eq!(prob(&s, 4), 0.0);
    assert_eq!(prob(&s, 1000), 0.0);
    assert_eq!(prob(&s, 0), 1.0);
}

#[test]
fn single_gate_refuses_qubit_outside_register() {
    let mut s = ground(2);
    let r = s.apply_single_gate(GateKind::PauliX, 2, &apply);
    assert!(matches!(r, Err(SimError::InvalidQubitIndex)));
    assert_eq!(s.amplitudes()[0], c(1.0, 0.0));
}

#[test]
fn controlled_gate_refuses_bad_indices() {
    let mut s = ground(3);
    assert!(matches!(
        s.apply_controlled_gate(GateKind::PauliX, 1, 1, &apply),
        Err(SimError::InvalidQubitIndex)
    ));
    assert!(matches!(
        s.apply_controlled_gate(GateKind::PauliX, 3, 0, &apply),
        Err(SimError::InvalidQubitIndex)
    ));
    assert!(matches!(
        s.apply_controlled_gate(GateKind::PauliX, 0, 5, &apply),
        Err(SimError::InvalidQubitIndex)
    ));
    assert_eq!(s.amplitudes()[0], c(1.0, 0.0));
}

#[test]
fn controlled_gate_acts_only_where_control_is_one() {
    let mut s = ground(2);
    s.apply_controlled_gate(GateKind::PauliX, 0, 1, &apply).unwrap();
    assert_eq!(s.amplitudes()[0], c(1.0, 0.0));
    s.apply_single_gate(GateKind::PauliX, 0, &apply).unwrap();
    s.apply_controlled_gate(GateKind::PauliX, 0, 1, &apply).unwrap();
    assert_eq!(s.amplitudes()[3], c(1.0, 0.0));
    assert_eq!(s.amplitudes()[1], c(0.0, 0.0));
}

#[test]
fn execute_stops_on_invalid_operation() {
    let mut circuit: QuantumCircuit<f64> = QuantumCircuit::new(2);
    circuit.h(0).cnot(1, 1).x(0);
    assert!(matches!(run(&circuit), Err(SimError::InvalidQubitIndex)));
    let mut other: QuantumCircuit<f64> = QuantumCircuit::new(2);
    other.x(2);
    assert!(matches!(run(&other), Err(SimError::InvalidQubitIndex)));
}

#[test]
fn execute_refuses_register_over_limit() {
    let mut circuit: QuantumCircuit<f64> = QuantumCircuit::new(MAX_QUBITS + 1);
    circuit.h(0);
    assert!(matches!(run(&circuit), Err(SimError::CapacityExceeded)));
}

#[test]
fn builder_appends_in_order() {
    let mut circuit: QuantumCircuit<f64> = QuantumCircuit::new(3);
    circuit.h(0).x(1).rz(2, 0.5).cnot(0, 2);
    assert_eq!(circuit.num_qubits, 3);
    assert_eq!(
        circuit.operations,
        vec![
            Operation::SingleGate { gate: GateKind::Hadamard, qubit: 0 },
            Operation::SingleGate { gate: GateKind::PauliX, qubit: 1 },
            Operation::SingleGate { gate: GateKind::Rz(0.5), qubit: 2 },
            Operation::ControlledGate { gate: GateKind::PauliX, control: 0, target: 2 },
        ]
    );
}

#[test]
fn empty_circuit_gives_ground_state() {
    let circuit: QuantumCircuit<f64> = QuantumCircuit::new(3);
    let s = run(&circuit).unwrap();
    assert!(same_amplitudes(&s, &ground(3)));
}

fn apply_exact(g: GateKind<i64>, a: i64, b: i64) -> (i64, i64) {
    match g {
        GateKind::Hadamard => (a + b, a - b),
        GateKind::PauliX => (b, a),
        GateKind::PauliZ => (a, -b),
        _ => (a, b),
    }
}

#[test]
fn ghz_with_exact_integer_amplitudes() {
    for n in 1..9 {
        let mut circuit: QuantumCircuit<i64> = QuantumCircuit::new(n);
        circuit.h(0);
        for k in 1..n {
            circuit.cnot(0, k);
        }
        let s = circuit.execute(0i64, 1i64, &apply_exact).unwrap();
        let last = (1usize << n) - 1;
        for (i, a) in s.amplitudes().iter().enumerate() {
            let want = if i == 0 || i == last { 1 } else { 0 };
            assert_eq!(*a, want);
        }
    }
}

#[test]
fn exact_amplitudes_pair_update_on_middle_qubit() {
    let mut s = QuantumState::new(3, 0i64, 1i64).unwrap();
    s.apply_single_gate(GateKind::<i64>::Hadamard, 0, &apply_exact).unwrap();
    s.apply_single_gate(GateKind::<i64>::Hadamard, 1, &apply_exact).unwrap();
    assert_eq!(s.amplitudes().clone(), vec![1, 1, 1, 1, 0, 0, 0, 0]);
    s.apply_controlled_gate(GateKind::<i64>::PauliZ, 0, 1, &apply_exact).unwrap();
    assert_eq!(s.amplitudes().clone(), vec![1, 1, 1, -1, 0, 0, 0, 0]);
    s.apply_controlled_gate(GateKind::<i64>::PauliX, 1, 2, &apply_exact).unwrap();
    assert_eq!(s.amplitudes().clone(), vec![1, 1, 0, 0, 0, 0, 1, -1]);
    assert_eq!(s.get_probability(7, &|a: i64| a * a, 0), 1);
    assert_eq!(s.get_probability(8, &|a: i64| a * a, 0), 0);
}
