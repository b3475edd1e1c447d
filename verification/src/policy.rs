//! What a decision says.

use crate::scalar::Scalar;
use vstd::prelude::*;

verus! {

/// What to do: buy or sell so many units, or hold.
#[derive(Debug, Clone, Copy, PartialEq, Eq, Structural)]
pub enum Action {
    Buy(u64),
    Sell(u64),
    Hold,
}

/// An action with the value it was chosen for.
#[derive(Debug, Clone, Copy, PartialEq, Eq, Structural)]
pub struct PolicyDecision {
    pub action: Action,
    pub q_value: Scalar,
    pub confidence: Scalar,
}

} // verus!
