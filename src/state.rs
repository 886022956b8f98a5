//! Initialisation levels of a component and of a circuit.
use vstd::prelude::*;

verus! {

/// How far the analysis of a component has gone. The levels are ordered:
/// `Uninitialized < Impedance < CurrentTensionPotential`.
#[derive(Clone, Copy, Debug, PartialEq, Eq, Structural)]
pub enum ComponentInitState {
    /// Nothing computed.
    Uninitialized,
    /// The impedance is computed.
    Impedance,
    /// The currents, tensions and potentials of every spectral line are recorded.
    CurrentTensionPotential,
}

impl ComponentInitState {
    /// The position of the level in the order of levels.
    pub open spec fn rank(self) -> nat {
        match self {
            ComponentInitState::Uninitialized => 0,
            ComponentInitState::Impedance => 1,
            ComponentInitState::CurrentTensionPotential => 2,
        }
    }

    /// The rank of the level, as a number.
    pub fn level(&self) -> (r: u8)
        ensures
            r as nat == self.rank(),
    {
        match self {
            ComponentInitState::Uninitialized => 0,
            ComponentInitState::Impedance => 1,
            ComponentInitState::CurrentTensionPotential => 2,
        }
    }

    /// The lower of `self` and `Impedance`: what is left of the level once the
    /// currents, tensions and potentials are dropped.
    pub fn lowered_to_impedance(self) -> (r: ComponentInitState)
        ensures
            r.rank() == if self.rank() < 1 { self.rank() } else { 1 },
    {
        match self {
            ComponentInitState::Uninitialized => ComponentInitState::Uninitialized,
            _ => ComponentInitState::Impedance,
        }
    }
}

impl Default for ComponentInitState {
    fn default() -> (r: ComponentInitState)
        ensures
            r == ComponentInitState::Uninitialized,
    {
        ComponentInitState::Uninitialized
    }
}

/// How far the analysis of a circuit has gone. The levels are ordered:
/// `Uninitialized < CircuitNodes < Source`.
#[derive(Clone, Copy, Debug, PartialEq, Eq, Structural)]
pub enum CircuitInitState {
    /// Nothing computed.
    Uninitialized,
    /// The identifiers and the node table are built.
    CircuitNodes,
    /// Every spectral line of the source has been handed down the tree.
    Source,
}

impl CircuitInitState {
    /// The position of the level in the order of levels.
    pub open spec fn rank(self) -> nat {
        match self {
            CircuitInitState::Uninitialized => 0,
            CircuitInitState::CircuitNodes => 1,
            CircuitInitState::Source => 2,
        }
    }

    /// The rank of the level, as a number.
    pub fn level(&self) -> (r: u8)
        ensures
            r as nat == self.rank(),
    {
        match self {
            CircuitInitState::Uninitialized => 0,
            CircuitInitState::CircuitNodes => 1,
            CircuitInitState::Source => 2,
        }
    }

    /// The lower of `self` and `CircuitNodes`: what is left of the level once
    /// the source changes.
    pub fn lowered_to_nodes(self) -> (r: CircuitInitState)
        ensures
            r.rank() == if self.rank() < 1 { self.rank() } else { 1 },
    {
        match self {
            CircuitInitState::Uninitialized => CircuitInitState::Uninitialized,
            _ => CircuitInitState::CircuitNodes,
        }
    }
}

impl Default for CircuitInitState {
    fn default() -> (r: CircuitInitState)
        ensures
            r == CircuitInitState::Uninitialized,
    {
        CircuitInitState::Uninitialized
    }
}

} // verus!
