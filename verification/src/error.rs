//! The ways in which a request can be refused.

use vstd::prelude::*;

verus! {

/// The squared magnitudes of the amplitudes offered for a qubit do not sum to one.
#[derive(Clone, Copy, Debug, PartialEq, Eq, Structural)]
pub struct NotNormalizedError;

/// The joint state is entangled: it is no product of two single-qubit states.
#[derive(Clone, Copy, Debug, PartialEq, Eq, Structural)]
pub struct EntangledStateError;

/// The matrix offered for a gate is not unitary.
#[derive(Clone, Copy, Debug, PartialEq, Eq, Structural)]
pub struct NonUnitaryGateError;

} // verus!
