//! The values that the analysis computes with, seen through the operations it
//! needs from them.
//!
//! An impedance is a rational function of the pulse with complex coefficients,
//! kept reduced. The analysis adds impedances, inverts them, reduces them,
//! evaluates them at a pulse, and asks two questions of them: whether the
//! numerator's constant term is zero (the impedance is a multiple of the
//! pulse, so the element is a wire at pulse zero) and whether the
//! denominator's constant term is zero (a multiple of the inverse of the
//! pulse, so the element is open at pulse zero). A reduced impedance is never
//! both.
//!
//! Each operation is a function of its arguments alone; its result is named
//! by a spec function of the trait, which the contracts of the analysis speak
//! of.
use vstd::prelude::*;

verus! {

/// Impedances built from element values of type `V`.
pub trait RationalImpedance<V>: Sized {
    /// The zero impedance.
    spec fn spec_zero() -> Self;

    /// The impedance of a resistor of resistance `r`.
    spec fn spec_resistor(r: V) -> Self;

    /// The impedance of a capacitor of capacitance `c`.
    spec fn spec_capacitor(c: V) -> Self;

    /// The impedance of an inductor of inductance `l`.
    spec fn spec_inductor(l: V) -> Self;

    /// The sum of two impedances.
    spec fn spec_add(self, other: Self) -> Self;

    /// The fraction with numerator and denominator swapped.
    spec fn spec_invert(self) -> Self;

    /// The fraction without the factors common to numerator and denominator.
    spec fn spec_reduce(self) -> Self;

    /// Whether the numerator's constant term is zero.
    spec fn spec_is_wire(self) -> bool;

    /// Whether the denominator's constant term is zero.
    spec fn spec_is_open(self) -> bool;

    /// The zero impedance.
    fn zero() -> (r: Self)
        ensures
            r == Self::spec_zero(),
    ;

    /// The impedance of a resistor of resistance `r`: the constant `r`.
    fn resistor(r: &V) -> (z: Self)
        ensures
            z == Self::spec_resistor(*r),
    ;

    /// The impedance of a capacitor of capacitance `c`: `-j / (c x)`.
    fn capacitor(c: &V) -> (z: Self)
        ensures
            z == Self::spec_capacitor(*c),
    ;

    /// The impedance of an inductor of inductance `l`: `j l x`.
    fn inductor(l: &V) -> (z: Self)
        ensures
            z == Self::spec_inductor(*l),
    ;

    /// A copy of the impedance.
    fn duplicate(&self) -> (r: Self)
        ensures
            r == *self,
    ;

    /// Adds `other` to `self`.
    fn add_assign(&mut self, other: &Self)
        ensures
            *final(self) == old(self).spec_add(*other),
    ;

    /// Swaps numerator and denominator.
    fn invert(&mut self)
        ensures
            *final(self) == old(self).spec_invert(),
    ;

    /// Cancels the factors common to numerator and denominator.
    fn reduce(&mut self)
        ensures
            *final(self) == old(self).spec_reduce(),
    ;

    /// Whether the numerator's constant term is zero.
    fn is_multiple_of_x(&self) -> (r: bool)
        ensures
            r == self.spec_is_wire(),
    ;

    /// Whether the denominator's constant term is zero.
    fn is_multiple_of_invx(&self) -> (r: bool)
        ensures
            r == self.spec_is_open(),
    ;
}

/// A pulse, the angular frequency of a spectral line.
pub trait Pulse: Sized {
    /// Whether the pulse is zero.
    spec fn spec_is_zero(self) -> bool;

    /// How `self` compares with `other`.
    spec fn spec_compare(self, other: Self) -> std::cmp::Ordering;

    /// Whether the pulse is zero: the line is the constant part.
    fn is_zero(&self) -> (r: bool)
        ensures
            r == self.spec_is_zero(),
    ;

    /// How `self` compares with `other`; the lines of a source are kept in
    /// this order.
    fn compare(&self, other: &Self) -> (r: std::cmp::Ordering)
        ensures
            r == self.spec_compare(*other),
    ;
}

/// Complex amplitudes of currents, tensions and potentials.
pub trait Phasor: Sized {
    /// Whether the amplitude is zero.
    spec fn spec_is_zero(self) -> bool;

    /// The product of two amplitudes.
    spec fn spec_times(self, other: Self) -> Self;

    /// The quotient of two amplitudes.
    spec fn spec_over(self, other: Self) -> Self;

    /// The difference of two amplitudes.
    spec fn spec_minus(self, other: Self) -> Self;

    /// Whether the amplitude is zero.
    fn is_zero(&self) -> (r: bool)
        ensures
            r == self.spec_is_zero(),
    ;

    /// A copy of the amplitude.
    fn copy(&self) -> (r: Self)
        ensures
            r == *self,
    ;

    /// The product of `self` and `other`.
    fn times(&self, other: &Self) -> (r: Self)
        ensures
            r == self.spec_times(*other),
    ;

    /// The quotient of `self` by `other`.
    fn over(&self, other: &Self) -> (r: Self)
        ensures
            r == self.spec_over(*other),
    ;

    /// The difference of `self` and `other`.
    fn minus(&self, other: &Self) -> (r: Self)
        ensures
            r == self.spec_minus(*other),
    ;
}

/// Impedances evaluated at a pulse of type `P`, with amplitudes of type `A`.
pub trait Evaluate<P, A>: Sized {
    /// The impedance at a pulse.
    spec fn spec_eval(self, pulse: P) -> A;

    /// The admittance at a pulse.
    spec fn spec_eval_inverse(self, pulse: P) -> A;

    /// The impedance divided by the pulse, at pulse zero.
    spec fn spec_zero_without_x(self) -> A;

    /// The impedance times the pulse, at pulse zero.
    spec fn spec_zero_without_invx(self) -> A;

    /// The impedance at `pulse`.
    fn eval(&self, pulse: &P) -> (r: A)
        ensures
            r == self.spec_eval(*pulse),
    ;

    /// The admittance (the inverse of the impedance) at `pulse`, evaluated as
    /// the rational function with numerator and denominator swapped.
    fn eval_inverse(&self, pulse: &P) -> (r: A)
        ensures
            r == self.spec_eval_inverse(*pulse),
    ;

    /// For an impedance that is a multiple of the pulse: the impedance divided
    /// by the pulse, at pulse zero (the numerator's term of degree one over
    /// the denominator's constant term).
    fn eval_zero_without_x(&self) -> (r: A)
        ensures
            r == self.spec_zero_without_x(),
    ;

    /// For an impedance that is a multiple of the inverse of the pulse: the
    /// impedance times the pulse, at pulse zero (the numerator's constant
    /// term over the denominator's term of degree one).
    fn eval_zero_without_invx(&self) -> (r: A)
        ensures
            r == self.spec_zero_without_invx(),
    ;
}

} // verus!
