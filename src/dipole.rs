//! Elementary two-terminal elements.
use vstd::prelude::*;
use crate::algebra::RationalImpedance;
use crate::error::Error;

verus! {

/// An element with two terminals. `V` holds element values (resistance,
/// capacitance, inductance), `Z` impedances.
#[derive(Clone, Debug)]
pub enum Dipole<V, Z> {
    /// A resistor of the given resistance, in ohms.
    Resistor(V),
    /// A capacitor of the given capacitance, in farads.
    Capacitor(V),
    /// An inductor of the given inductance, in henries.
    Inductor(V),
    /// An element given by its impedance.
    Equivalent(Z),
    /// The placeholder of an empty tree; it has no impedance.
    Poisoned,
}

impl<V, Z: RationalImpedance<V>> Dipole<V, Z> {
    /// The impedance of the element, for any element but the placeholder.
    pub open spec fn spec_impedance(self) -> Z {
        match self {
            Dipole::Resistor(r) => Z::spec_resistor(r),
            Dipole::Capacitor(c) => Z::spec_capacitor(c),
            Dipole::Inductor(l) => Z::spec_inductor(l),
            Dipole::Equivalent(e) => e,
            Dipole::Poisoned => Z::spec_zero(),
        }
    }

    /// The impedance of the element: the algebra's resistor, capacitor or
    /// inductor of its value, or the given impedance of an equivalent
    /// element; an error for the placeholder.
    pub fn impedance(&self) -> (r: Result<Z, Error>)
        ensures
            r is Err <==> self is Poisoned,
            r is Err ==> r->Err_0.is_build(),
            r is Ok ==> r->Ok_0 == self.spec_impedance(),
            *self matches Dipole::Resistor(v) ==> r is Ok && r->Ok_0 == Z::spec_resistor(v),
            *self matches Dipole::Capacitor(v) ==> r is Ok && r->Ok_0 == Z::spec_capacitor(v),
            *self matches Dipole::Inductor(v) ==> r is Ok && r->Ok_0 == Z::spec_inductor(v),
            *self matches Dipole::Equivalent(e) ==> r is Ok && r->Ok_0 == e,
    {
        match self {
            Dipole::Resistor(r) => Ok(Z::resistor(r)),
            Dipole::Capacitor(c) => Ok(Z::capacitor(c)),
            Dipole::Inductor(l) => Ok(Z::inductor(l)),
            Dipole::Equivalent(e) => Ok(e.duplicate()),
            Dipole::Poisoned => Err(Error::CircuitBuild(String::from_str("impedance of an uninitialized dipole"))),
        }
    }
}

} // verus!
