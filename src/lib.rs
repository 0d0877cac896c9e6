//! State-vector simulation of a quantum register.
//!
//! The simulator keeps one amplitude per basis state of an `n`-qubit
//! register (bit `k` of an index is qubit `k`) and applies gates by
//! updating amplitude pairs. The library is generic over the amplitude
//! type: a gate reaches the state together with the rule that applies it to
//! an amplitude pair, so the indexing, validation and sequencing here are
//! proved for every amplitude representation.

pub mod bits;
pub mod error;
pub mod state;
pub mod circuit;
pub mod laws;

pub use error::SimError;
pub use state::QuantumState;
pub use circuit::{GateKind, Operation, QuantumCircuit};
pub use bits::MAX_QUBITS;
