use vstd::prelude::*;
use crate::bits::MAX_QUBITS;
use crate::error::SimError;
use crate::state::{QuantumState, ground_state, single_gate_applied, controlled_gate_applied};

verus! {

/// The gates a circuit can name; a rotation carries its angle.
#[derive(Clone, Copy, Debug, PartialEq, Eq)]
pub enum GateKind<R> {
    Hadamard,
    PauliX,
    PauliY,
    PauliZ,
    Rx(R),
    Ry(R),
    Rz(R),
}

/// One step of a circuit.
#[derive(Clone, Copy, Debug, PartialEq, Eq)]
pub enum Operation<R> {
    SingleGate { gate: GateKind<R>, qubit: usize },
    ControlledGate { gate: GateKind<R>, control: usize, target: usize },
}

/// A register size and the gates to apply to it, in order.
pub struct QuantumCircuit<R> {
    pub num_qubits: usize,
    pub operations: Vec<Operation<R>>,
}

/// Whether `op` names qubits of an `n`-qubit register, with distinct control
/// and target.
pub open spec fn op_valid<R>(n: nat, op: Operation<R>) -> bool {
    match op {
        Operation::SingleGate { qubit, .. } => qubit < n,
        Operation::ControlledGate { control, target, .. } => control < n && target < n && control
            != target,
    }
}

/// Whether every operation of `ops` is valid on an `n`-qubit register.
pub open spec fn ops_valid<R>(n: nat, ops: Seq<Operation<R>>) -> bool {
    forall|k: int| 0 <= k < ops.len() ==> #[trigger] op_valid(n, ops[k])
}

/// `new` is `old` after `op`, with `apply` as the action of a gate on an
/// amplitude pair.
pub open spec fn op_applied<A, R, F: Fn(GateKind<R>, A, A) -> (A, A)>(
    old: Seq<A>,
    new: Seq<A>,
    op: Operation<R>,
    apply: F,
) -> bool {
    match op {
        Operation::SingleGate { gate, qubit } => single_gate_applied(
            old,
            new,
            qubit as nat,
            gate,
            apply,
        ),
        Operation::ControlledGate { gate, control, target } => controlled_gate_applied(
            old,
            new,
            control as nat,
            target as nat,
            gate,
            apply,
        ),
    }
}

/// `trace` lists the states of a run of `ops` on the `|0...0>` state of `n`
/// qubits: the first is that state, and each next one is the one before it
/// after the next operation.
pub open spec fn is_trace<A, R, F: Fn(GateKind<R>, A, A) -> (A, A)>(
    n: nat,
    ops: Seq<Operation<R>>,
    zero: A,
    one: A,
    apply: F,
    trace: Seq<Seq<A>>,
) -> bool {
    &&& trace.len() == ops.len() + 1
    &&& trace[0] == ground_state(n, zero, one)
    &&& forall|k: int|
        0 <= k < ops.len() ==> #[trigger] op_applied(trace[k], trace[k + 1], ops[k], apply)
}

/// `result` is an outcome of running `ops` in order on the `|0...0>` state of
/// `n` qubits.
pub open spec fn runs<A, R, F: Fn(GateKind<R>, A, A) -> (A, A)>(
    n: nat,
    ops: Seq<Operation<R>>,
    zero: A,
    one: A,
    apply: F,
    result: Seq<A>,
) -> bool {
    exists|trace: Seq<Seq<A>>|
        #[trigger] is_trace(n, ops, zero, one, apply, trace) && trace.last() == result
}

impl<R: Copy> QuantumCircuit<R> {
    /// An empty circuit over `num_qubits` qubits.
    pub fn new(num_qubits: usize) -> (r: Self)
        ensures
            r.num_qubits == num_qubits,
            r.operations@ == Seq::<Operation<R>>::empty(),
    {
        QuantumCircuit { num_qubits, operations: Vec::new() }
    }

    /// Appends `op` and hands the circuit back for chaining.
    fn append(&mut self, op: Operation<R>) -> (r: &mut Self)
        ensures
            r.num_qubits == old(self).num_qubits,
            r.operations@ == old(self).operations@.push(op),
            *final(self) == *final(r),
    {
        self.operations.push(op);
        self
    }

    /// Appends a Hadamard gate on `qubit`.
    pub fn h(&mut self, qubit: usize) -> (r: &mut Self)
        ensures
            r.num_qubits == old(self).num_qubits,
            r.operations@ == old(self).operations@.push(
                Operation::SingleGate { gate: GateKind::Hadamard, qubit },
            ),
            *final(self) == *final(r),
    {
        self.append(Operation::SingleGate { gate: GateKind::Hadamard, qubit })
    }

    /// Appends a Pauli-X (bit flip) gate on `qubit`.
    pub fn x(&mut self, qubit: usize) -> (r: &mut Self)
        ensures
            r.num_qubits == old(self).num_qubits,
            r.operations@ == old(self).operations@.push(
                Operation::SingleGate { gate: GateKind::PauliX, qubit },
            ),
            *final(self) == *final(r),
    {
        self.append(Operation::SingleGate { gate: GateKind::PauliX, qubit })
    }

    /// Appends a Pauli-Y gate on `qubit`.
    pub fn y(&mut self, qubit: usize) -> (r: &mut Self)
        ensures
            r.num_qubits == old(self).num_qubits,
            r.operations@ == old(self).operations@.push(
                Operation::SingleGate { gate: GateKind::PauliY, qubit },
            ),
            *final(self) == *final(r),
    {
        self.append(Operation::SingleGate { gate: GateKind::PauliY, qubit })
    }

    /// Appends a Pauli-Z (phase flip) gate on `qubit`.
    pub fn z(&mut self, qubit: usize) -> (r: &mut Self)
        ensures
            r.num_qubits == old(self).num_qubits,
            r.operations@ == old(self).operations@.push(
                Operation::SingleGate { gate: GateKind::PauliZ, qubit },
            ),
            *final(self) == *final(r),
    {
        self.append(Operation::SingleGate { gate: GateKind::PauliZ, qubit })
    }

    /// Appends a rotation by `theta` about the X axis on `qubit`.
    pub fn rx(&mut self, qubit: usize, theta: R) -> (r: &mut Self)
        ensures
            r.num_qubits == old(self).num_qubits,
            r.operations@ == old(self).operations@.push(
                Operation::SingleGate { gate: GateKind::Rx(theta), qubit },
            ),
            *final(self) == *final(r),
    {
        self.append(Operation::SingleGate { gate: GateKind::Rx(theta), qubit })
    }

    /// Appends a rotation by `theta` about the Y axis on `qubit`.
    pub fn ry(&mut self, qubit: usize, theta: R) -> (r: &mut Self)
        ensures
            r.num_qubits == old(self).num_qubits,
            r.operations@ == old(self).operations@.push(
                Operation::SingleGate { gate: GateKind::Ry(theta), qubit },
            ),
            *final(self) == *final(r),
    {
        self.append(Operation::SingleGate { gate: GateKind::Ry(theta), qubit })
    }

    /// Appends a rotation by `theta` about the Z axis on `qubit`.
    pub fn rz(&mut self, qubit: usize, theta: R) -> (r: &mut Self)
        ensures
            r.num_qubits == old(self).num_qubits,
            r.operations@ == old(self).operations@.push(
                Operation::SingleGate { gate: GateKind::Rz(theta), qubit },
            ),
            *final(self) == *final(r),
    {
        self.append(Operation::SingleGate { gate: GateKind::Rz(theta), qubit })
    }

    /// Appends a controlled NOT: Pauli-X on `target` where `control` is 1.
    pub fn cnot(&mut self, control: usize, target: usize) -> (r: &mut Self)
        ensures
            r.num_qubits == old(self).num_qubits,
            r.operations@ == old(self).operations@.push(
                Operation::ControlledGate { gate: GateKind::PauliX, control, target },
            ),
            *final(self) == *final(r),
    {
        self.append(Operation::ControlledGate { gate: GateKind::PauliX, control, target })
    }

    /// Runs the circuit on a fresh `|0...0>` state, with `zero` and `one` as
    /// the amplitudes of that state and `apply` as the action of a gate on an
    /// amplitude pair. A register over the size limit is refused with
    /// `CapacityExceeded`; otherwise the first operation that names a qubit
    /// outside the register, or the same qubit twice, stops the run with
    /// `InvalidQubitIndex`. The circuit itself is left as it is.
    pub fn execute<A: Copy, F: Fn(GateKind<R>, A, A) -> (A, A)>(
        &self,
        zero: A,
        one: A,
        apply: &F,
    ) -> (r: Result<QuantumState<A>, SimError>)
        requires
            forall|g: GateKind<R>, a: A, b: A| apply.requires((g, a, b)),
        ensures
            self.num_qubits > MAX_QUBITS ==> r == Err::<QuantumState<A>, SimError>(
                SimError::CapacityExceeded,
            ),
            self.num_qubits <= MAX_QUBITS && !ops_valid(self.num_qubits as nat, self.operations@)
                ==> r == Err::<QuantumState<A>, SimError>(SimError::InvalidQubitIndex),
            r is Ok <==> self.num_qubits <= MAX_QUBITS && ops_valid(
                self.num_qubits as nat,
                self.operations@,
            ),
            r is Ok ==> {
                let s = r->Ok_0;
                &&& s.wf()
                &&& s.qubits() == self.num_qubits
                &&& runs(self.num_qubits as nat, self.operations@, zero, one, *apply, s@)
            },
    {
        let mut state = match QuantumState::new(self.num_qubits, zero, one) {
            Ok(s) => s,
            Err(e) => {
                return Err(e);
            },
        };
        let ghost ops = self.operations@;
        let ghost n = self.num_qubits as nat;
        let ghost mut trace: Seq<Seq<A>> = seq![state@];
        let mut k: usize = 0;
        while k < self.operations.len()
            invariant
                ops == self.operations@,
                n == self.num_qubits,
                n <= MAX_QUBITS,
                k <= ops.len(),
                state.wf(),
                state.qubits() == n,
                forall|g: GateKind<R>, a: A, b: A| apply.requires((g, a, b)),
                ops_valid(n, ops.take(k as int)),
                trace.len() == k + 1,
                trace[0] == ground_state(n, zero, one),
                trace.last() == state@,
                forall|j: int|
                    0 <= j < k ==> #[trigger] op_applied(trace[j], trace[j + 1], ops[j], *apply),
            decreases ops.len() - k,
        {
            let ghost before = state@;
            let op = self.operations[k];
            assert(op == ops[k as int]);
            match op {
                Operation::SingleGate { gate, qubit } => {
                    if state.apply_single_gate(gate, qubit, apply).is_err() {
                        assert(!op_valid(n, ops[k as int]));
                        return Err(SimError::InvalidQubitIndex);
                    }
                },
                Operation::ControlledGate { gate, control, target } => {
                    if state.apply_controlled_gate(gate, control, target, apply).is_err() {
                        assert(!op_valid(n, ops[k as int]));
                        return Err(SimError::InvalidQubitIndex);
                    }
                },
            }
            assert(op_applied(before, state@, op, *apply));
            proof {
                let next = ops.take(k + 1);
                assert forall|j: int| 0 <= j < next.len() implies #[trigger] op_valid(n, next[j]) by {
                    if j < k {
                        assert(ops.take(k as int)[j] == next[j]);
                    }
                }
                trace = trace.push(state@);
            }
            k = k + 1;
        }
        assert(ops.take(ops.len() as int) =~= ops);
        assert(is_trace(n, ops, zero, one, *apply, trace));
        Ok(state)
    }
}

} // verus!
