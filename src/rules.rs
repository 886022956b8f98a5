//! The decisions taken while a spectral line is handed down the tree.
//!
//! At a pulse other than zero every impedance is finite and non-zero, and a
//! child's tension (in series) or current (in parallel) follows from its
//! impedance. At pulse zero a capacitor-like child (its impedance a multiple
//! of the inverse of the pulse) is open, and an inductor-like child (a
//! multiple of the pulse) is a wire: there the share of the child is the
//! limit of a ratio of impedances, found from the leading coefficients, or
//! there is no solution: a short circuit.
use vstd::prelude::*;

verus! {

/// How the share of a child is found.
#[derive(Clone, Copy, Debug, PartialEq, Eq, Structural)]
pub enum Step {
    /// From the child's impedance at the pulse.
    Direct,
    /// From the ratio of the leading coefficients of the child's and the
    /// parent's impedance at pulse zero.
    Ratio,
    /// There is no solution.
    ShortCircuit,
}

/// The step of [`series_step`].
pub open spec fn series_rule(
    pulse_is_zero: bool,
    child_is_open: bool,
    current_is_zero: bool,
    parent_is_open: bool,
) -> Step {
    if !pulse_is_zero || !child_is_open {
        Step::Direct
    } else if current_is_zero && parent_is_open {
        Step::Ratio
    } else {
        Step::ShortCircuit
    }
}

/// The step of [`parallel_step`].
pub open spec fn parallel_rule(
    pulse_is_zero: bool,
    child_is_wire: bool,
    tension_is_zero: bool,
    parent_is_wire: bool,
) -> Step {
    if !pulse_is_zero || !child_is_wire {
        Step::Direct
    } else if tension_is_zero && parent_is_wire {
        Step::Ratio
    } else {
        Step::ShortCircuit
    }
}

/// The rule for a child of a series branch, which carries the branch's
/// current: a child open at pulse zero takes a share of the branch's tension
/// when no current flows and the branch is open too; with a current it is a
/// short circuit.
pub fn series_step(
    pulse_is_zero: bool,
    child_is_open: bool,
    current_is_zero: bool,
    parent_is_open: bool,
) -> (r: Step)
    ensures
        r == series_rule(pulse_is_zero, child_is_open, current_is_zero, parent_is_open),
        r == Step::Direct <==> !pulse_is_zero || !child_is_open,
        r == Step::Ratio <==> pulse_is_zero && child_is_open && current_is_zero && parent_is_open,
        r == Step::ShortCircuit <==> pulse_is_zero && child_is_open && !(current_is_zero
            && parent_is_open),
{
    if !pulse_is_zero || !child_is_open {
        Step::Direct
    } else if current_is_zero && parent_is_open {
        Step::Ratio
    } else {
        Step::ShortCircuit
    }
}

/// The rule for a child of a parallel branch, which bears the branch's
/// tension: a child that is a wire at pulse zero takes a share of the
/// branch's current when there is no tension and the branch is a wire too;
/// with a tension it is a short circuit.
pub fn parallel_step(
    pulse_is_zero: bool,
    child_is_wire: bool,
    tension_is_zero: bool,
    parent_is_wire: bool,
) -> (r: Step)
    ensures
        r == parallel_rule(pulse_is_zero, child_is_wire, tension_is_zero, parent_is_wire),
        r == Step::Direct <==> !pulse_is_zero || !child_is_wire,
        r == Step::Ratio <==> pulse_is_zero && child_is_wire && tension_is_zero && parent_is_wire,
        r == Step::ShortCircuit <==> pulse_is_zero && child_is_wire && !(tension_is_zero
            && parent_is_wire),
{
    if !pulse_is_zero || !child_is_wire {
        Step::Direct
    } else if tension_is_zero && parent_is_wire {
        Step::Ratio
    } else {
        Step::ShortCircuit
    }
}

/// What is done with a line of the source at the root of the tree.
#[derive(Clone, Copy, Debug, PartialEq, Eq, Structural)]
pub enum LineStep {
    /// The line has no amplitude: nothing is recorded.
    Skip,
    /// The line is handed down the tree.
    Solve,
    /// The whole tree is a wire at pulse zero under a tension: no solution.
    ShortCircuit,
}

/// The rule for a line of the source at the root of the tree.
pub fn line_step(amplitude_is_zero: bool, pulse_is_zero: bool, root_is_wire: bool) -> (r: LineStep)
    ensures
        r == LineStep::Skip <==> amplitude_is_zero,
        r == LineStep::ShortCircuit <==> !amplitude_is_zero && pulse_is_zero && root_is_wire,
        r == LineStep::Solve <==> !amplitude_is_zero && !(pulse_is_zero && root_is_wire),
{
    if amplitude_is_zero {
        LineStep::Skip
    } else if pulse_is_zero && root_is_wire {
        LineStep::ShortCircuit
    } else {
        LineStep::Solve
    }
}

} // verus!
