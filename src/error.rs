use vstd::prelude::*;

verus! {

/// Why a simulation step was refused.
#[derive(Clone, Copy, Debug, PartialEq, Eq, Structural)]
pub enum SimError {
    /// The register is too large for the amplitude buffer to be allocated.
    CapacityExceeded,
    /// A gate names a qubit outside the register, or a controlled gate
    /// uses the same qubit as control and target.
    InvalidQubitIndex,
}

} // verus!
