use std::cmp::Ordering;

use circuits_simulator::algebra::{Evaluate, Phasor, Pulse, RationalImpedance};
use circuits_simulator::circuit::Circuit;
use circuits_simulator::component::{Component, ComponentContent};
use circuits_simulator::dipole::Dipole;
use circuits_simulator::error::{id_string, short_circuit, Error};
use circuits_simulator::node::Node;
use circuits_simulator::rules::{line_step, parallel_step, series_step, LineStep, Step};
use circuits_simulator::source::Source;
use circuits_simulator::state::{CircuitInitState, ComponentInitState};

const EPS: f64 = 1e-9;

/// A complex number.
#[derive(Clone, Copy, Debug, PartialEq)]
struct C {
    re: f64,
    im: f64,
}

fn c(re: f64, im: f64) -> C {
    C { re, im }
}

impl C {
    fn add(self, o: C) -> C {
        c(self.re + o.re, self.im + o.im)
    }
    fn mul(self, o: C) -> C {
        c(self.re * o.re - self.im * o.im, self.re * o.im + self.im * o.re)
    }
    fn div(self, o: C) -> C {
        let d = o.re * o.re + o.im * o.im;
        c((self.re * o.re + self.im * o.im) / d, (self.im * o.re - self.re * o.im) / d)
    }
    fn near(self, o: C) -> bool {
        (self.re - o.re).abs() < EPS && (self.im - o.im).abs() < EPS
    }
    fn zero(self) -> bool {
        self.re == 0.0 && self.im == 0.0
    }
}

impl Phasor for C {
    fn spec_is_zero(self) -> bool {
        self.zero()
    }
    fn spec_times(self, other: Self) -> Self {
        self.mul(other)
    }
    fn spec_over(self, other: Self) -> Self {
        self.div(other)
    }
    fn spec_minus(self, other: Self) -> Self {
        c(self.re - other.re, self.im - other.im)
    }
    fn is_zero(&self) -> bool {
        self.zero()
    }
    fn copy(&self) -> Self {
        *self
    }
    fn times(&self, other: &Self) -> Self {
        self.mul(*other)
    }
    fn over(&self, other: &Self) -> Self {
        self.div(*other)
    }
    fn minus(&self, other: &Self) -> Self {
        c(self.re - other.re, self.im - other.im)
    }
}

/// A pulse.
#[derive(Clone, Copy, Debug, PartialEq)]
struct W(f64);

impl Pulse for W {
    fn spec_is_zero(self) -> bool {
        self.0 == 0.0
    }
    fn spec_compare(self, other: Self) -> Ordering {
        self.compare(&other)
    }
    fn is_zero(&self) -> bool {
        self.0 == 0.0
    }
    fn compare(&self, other: &Self) -> Ordering {
        self.0.partial_cmp(&other.0).unwrap()
    }
}

/// A ratio of polynomials of the pulse with complex coefficients, by
/// increasing degree.
#[derive(Clone, Debug, PartialEq)]
struct Frac {
    num: Vec<C>,
    den: Vec<C>,
}

fn poly_mul(a: &[C], b: &[C]) -> Vec<C> {
    let mut r = vec![c(0.0, 0.0); a.len() + b.len() - 1];
    for (i, x) in a.iter().enumerate() {
        for (j, y) in b.iter().enumerate() {
            r[i + j] = r[i + j].add(x.mul(*y));
        }
    }
    r
}

fn poly_add(a: &[C], b: &[C]) -> Vec<C> {
    let mut r = vec![c(0.0, 0.0); a.len().max(b.len())];
    for (i, x) in a.iter().enumerate() {
        r[i] = r[i].add(*x);
    }
    for (i, y) in b.iter().enumerate() {
        r[i] = r[i].add(*y);
    }
    r
}

fn poly_eval(a: &[C], x: f64) -> C {
    let mut r = c(0.0, 0.0);
    for k in a.iter().rev() {
        r = r.mul(c(x, 0.0)).add(*k);
    }
    r
}

impl RationalImpedance<f64> for Frac {
    fn spec_zero() -> Self {
        <Frac as RationalImpedance<f64>>::zero()
    }
    fn spec_resistor(r: f64) -> Self {
        <Frac as RationalImpedance<f64>>::resistor(&r)
    }
    fn spec_capacitor(cap: f64) -> Self {
        <Frac as RationalImpedance<f64>>::capacitor(&cap)
    }
    fn spec_inductor(l: f64) -> Self {
        <Frac as RationalImpedance<f64>>::inductor(&l)
    }
    fn spec_add(self, other: Self) -> Self {
        let mut sum = self;
        RationalImpedance::<f64>::add_assign(&mut sum, &other);
        sum
    }
    fn spec_invert(self) -> Self {
        let mut inverse = self;
        RationalImpedance::<f64>::invert(&mut inverse);
        inverse
    }
    fn spec_reduce(self) -> Self {
        let mut reduced = self;
        RationalImpedance::<f64>::reduce(&mut reduced);
        reduced
    }
    fn spec_is_wire(self) -> bool {
        RationalImpedance::<f64>::is_multiple_of_x(&self)
    }
    fn spec_is_open(self) -> bool {
        RationalImpedance::<f64>::is_multiple_of_invx(&self)
    }
    fn zero() -> Self {
        Frac { num: vec![c(0.0, 0.0)], den: vec![c(1.0, 0.0)] }
    }
    fn resistor(r: &f64) -> Self {
        Frac { num: vec![c(*r, 0.0)], den: vec![c(1.0, 0.0)] }
    }
    fn capacitor(cap: &f64) -> Self {
        Frac { num: vec![c(0.0, -1.0 / *cap)], den: vec![c(0.0, 0.0), c(1.0, 0.0)] }
    }
    fn inductor(l: &f64) -> Self {
        Frac { num: vec![c(0.0, 0.0), c(0.0, *l)], den: vec![c(1.0, 0.0)] }
    }
    fn duplicate(&self) -> Self {
        self.clone()
    }
    fn add_assign(&mut self, other: &Self) {
        let num = poly_add(&poly_mul(&self.num, &other.den), &poly_mul(&other.num, &self.den));
        let den = poly_mul(&self.den, &other.den);
        self.num = num;
        self.den = den;
    }
    fn invert(&mut self) {
        std::mem::swap(&mut self.num, &mut self.den);
    }
    fn reduce(&mut self) {
        while self.num.len() > 1 && self.den.len() > 1 && self.num[0].zero() && self.den[0].zero() {
            self.num.remove(0);
            self.den.remove(0);
        }
        if self.num.iter().all(|k| k.zero()) {
            self.num = vec![c(0.0, 0.0)];
            self.den = vec![c(1.0, 0.0)];
        }
    }
    fn is_multiple_of_x(&self) -> bool {
        self.num[0].zero()
    }
    fn is_multiple_of_invx(&self) -> bool {
        self.den[0].zero()
    }
}

impl Evaluate<W, C> for Frac {
    fn spec_eval(self, pulse: W) -> C {
        self.eval(&pulse)
    }
    fn spec_eval_inverse(self, pulse: W) -> C {
        self.eval_inverse(&pulse)
    }
    fn spec_zero_without_x(self) -> C {
        self.eval_zero_without_x()
    }
    fn spec_zero_without_invx(self) -> C {
        self.eval_zero_without_invx()
    }
    fn eval(&self, pulse: &W) -> C {
        poly_eval(&self.num, pulse.0).div(poly_eval(&self.den, pulse.0))
    }
    fn eval_inverse(&self, pulse: &W) -> C {
        poly_eval(&self.den, pulse.0).div(poly_eval(&self.num, pulse.0))
    }
    fn eval_zero_without_x(&self) -> C {
        self.num[1].div(self.den[0])
    }
    fn eval_zero_without_invx(&self) -> C {
        self.num[0].div(self.den[1])
    }
}

type Comp = Component<f64, Frac, C>;
type Circ = Circuit<f64, Frac, W, C>;

fn resistor(r: f64) -> Comp {
    Component::from(Dipole::Resistor(r))
}

fn capacitor(x: f64) -> Comp {
    Component::from(Dipole::Capacitor(x))
}

fn inductor(x: f64) -> Comp {
    Component::from(Dipole::Inductor(x))
}

fn root_impedance(c: &Circ, pulse: f64) -> C {
    c.impedance().unwrap().eval(&W(pulse))
}

fn solve_message(e: Error) -> String {
    match e {
        Error::CircuitSolve(m) => m,
        other => panic!("expected a short circuit, got {:?}", other),
    }
}

#[test]
fn series_resistors_add_up() {
    let rs = [1.0, 2.5, 10.0, 0.5];
    let mut circuit: Circ = Circuit::new();
    for r in rs {
        circuit.content_mut().push_serie(resistor(r));
    }
    circuit.init().unwrap();
    for pulse in [0.0, 1.0, 123.0] {
        assert!(root_impedance(&circuit, pulse).near(c(14.0, 0.0)));
    }
}

#[test]
fn parallel_resistors_add_admittances() {
    let rs = [1.0, 2.0, 4.0];
    let mut circuit: Circ = Circuit::new();
    for r in rs {
        circuit.content_mut().push_parallel(resistor(r));
    }
    circuit.init().unwrap();
    let z = circuit.impedance().unwrap();
    for pulse in [0.0, 3.0] {
        assert!(z.eval_inverse(&W(pulse)).near(c(1.75, 0.0)));
    }
}

#[test]
fn capacitor_impedance_has_a_pole_at_zero() {
    let mut comp = capacitor(0.25);
    comp.init_impedance().unwrap();
    let z = comp.impedance.as_ref().unwrap();
    assert!(z.is_multiple_of_invx());
    assert!(!z.is_multiple_of_x());
    assert!(z.eval(&W(2.0)).near(c(0.0, -2.0)));
}

#[test]
fn inductor_impedance_has_a_zero_at_zero() {
    let mut comp = inductor(0.5);
    comp.init_impedance().unwrap();
    let z = comp.impedance.as_ref().unwrap();
    assert!(z.is_multiple_of_x());
    assert!(z.eval(&W(0.0)).near(c(0.0, 0.0)));
    assert!(z.eval(&W(4.0)).near(c(0.0, 2.0)));
}

#[test]
fn init_impedance_twice_changes_nothing() {
    let mut comp = resistor(3.0);
    comp.push_serie(capacitor(0.5));
    comp.init_impedance().unwrap();
    let impedance = comp.impedance.clone();
    let level = comp.init_state;
    comp.init_impedance().unwrap();
    assert_eq!(comp.impedance, impedance);
    assert_eq!(comp.init_state, level);
    assert_eq!(level, ComponentInitState::Impedance);
}

#[test]
fn poisoned_tree_has_no_impedance() {
    let mut comp: Comp = Component::new();
    assert!(matches!(comp.init_impedance(), Err(Error::CircuitBuild(_))));
    let mut leaf: Comp = Component::from(Dipole::Poisoned);
    assert!(matches!(leaf.init_impedance(), Err(Error::CircuitBuild(_))));
    let mut branch = resistor(1.0);
    branch.push_parallel(Component::from(Dipole::Poisoned));
    assert!(matches!(branch.init_impedance(), Err(Error::CircuitBuild(_))));
}

#[test]
fn push_builds_branches() {
    let mut comp: Comp = Component::new();
    comp.push_serie(resistor(1.0));
    assert!(matches!(comp.content, ComponentContent::Simple(Dipole::Resistor(r)) if r == 1.0));
    comp.push_serie(capacitor(2.0)).push_serie(inductor(3.0));
    match &comp.content {
        ComponentContent::Series(cs) => assert_eq!(cs.len(), 3),
        _ => panic!("expected a series branch"),
    }
    comp.push_parallel(resistor(4.0));
    match &comp.content {
        ComponentContent::Parallel(cs) => {
            assert_eq!(cs.len(), 2);
            assert!(matches!(cs[0].content, ComponentContent::Series(_)));
        },
        _ => panic!("expected a parallel branch"),
    }
}

#[test]
fn swap_exchanges_children() {
    let mut comp = resistor(1.0);
    comp.push_serie(capacitor(2.0)).push_serie(inductor(3.0));
    comp.swap(0, 2).unwrap();
    assert!(matches!(comp.get_comp_by_id(&[0]).unwrap().content, ComponentContent::Simple(Dipole::Inductor(_))));
    assert!(matches!(comp.get_comp_by_id(&[2]).unwrap().content, ComponentContent::Simple(Dipole::Resistor(_))));
    let mut leaf = resistor(1.0);
    assert!(matches!(leaf.swap(0, 0), Err(Error::CircuitBuild(_))));
}

#[test]
fn ids_are_paths() {
    let mut circuit: Circ = Circuit::new();
    let mut inner = resistor(1.0);
    inner.push_parallel(capacitor(1.0));
    circuit.content_mut().push_serie(inductor(1.0)).push_serie(inner);
    circuit.init_nodes().unwrap();
    assert_eq!(circuit.init_state, CircuitInitState::CircuitNodes);
    assert!(circuit.content().fore_node_id.is_empty());
    assert_eq!(circuit.get_comp_by_id(&[1, 0]).unwrap().fore_node_id, vec![1u8, 0]);
    assert_eq!(circuit.get_comp_by_id(&[1, 1]).unwrap().fore_node_id, vec![1u8, 1]);
    assert!(circuit.get_comp_by_id(&[1, 2]).is_none());
    assert!(circuit.get_comp_by_id(&[0, 0]).is_none());
}

#[test]
fn too_many_children_is_refused() {
    let mut circuit: Circ = Circuit::new();
    for _ in 0..257 {
        circuit.content_mut().push_serie(resistor(1.0));
    }
    assert!(matches!(circuit.init_nodes(), Err(Error::CircuitBuild(_))));
    assert!(matches!(circuit.init(), Err(Error::CircuitBuild(_))));
    let mut fits: Circ = Circuit::new();
    for _ in 0..256 {
        fits.content_mut().push_serie(resistor(1.0));
    }
    fits.init_nodes().unwrap();
    assert_eq!(fits.get_comp_by_id(&[255]).unwrap().fore_node_id, vec![255u8]);
}

#[test]
fn capacitor_under_constant_tension_carries_no_current() {
    let mut circuit: Circ = Circuit::new();
    circuit.content_mut().push_serie(capacitor(0.25));
    circuit.add_pulse(W(0.0), c(5.0, 0.0));
    circuit.init().unwrap();
    let node = circuit.get_node(&[]).unwrap();
    assert!(node.currents[0].near(c(0.0, 0.0)));
    assert!(node.next_component_tensions[0].near(c(5.0, 0.0)));
}

#[test]
fn inductor_under_constant_tension_is_a_short_circuit() {
    let mut circuit: Circ = Circuit::new();
    circuit.content_mut().push_serie(inductor(0.25));
    circuit.add_pulse(W(0.0), c(5.0, 0.0));
    let message = solve_message(circuit.init().err().unwrap());
    assert_eq!(message, "a non zero constant tension is applied to a zero impedance component []");
    assert_eq!(circuit.init_state, CircuitInitState::CircuitNodes);
}

#[test]
fn constant_tension_falls_across_the_capacitor() {
    let mut circuit: Circ = Circuit::new();
    circuit.content_mut().push_serie(resistor(1.0)).push_serie(capacitor(0.25));
    circuit.add_pulse(W(0.0), c(-1.0, 0.0));
    circuit.init().unwrap();
    assert_eq!(circuit.init_state, CircuitInitState::Source);
    let r = circuit.get_node(&[0]).unwrap();
    let cap = circuit.get_node(&[1]).unwrap();
    assert!(r.currents[0].near(c(0.0, 0.0)));
    assert!(r.next_component_tensions[0].near(c(0.0, 0.0)));
    assert!(r.potentials[0].near(c(-1.0, 0.0)));
    assert!(cap.next_component_tensions[0].near(c(-1.0, 0.0)));
    assert!(cap.potentials[0].near(c(-1.0, 0.0)));
}

#[test]
fn zero_source_records_nothing() {
    let mut circuit: Circ = Circuit::new();
    circuit.content_mut().push_serie(resistor(1.0)).push_serie(capacitor(0.25));
    circuit.add_pulse(W(0.0), c(0.0, 0.0));
    circuit.init().unwrap();
    for id in [vec![], vec![0u8], vec![1u8]] {
        let node = circuit.get_node(&id).unwrap();
        assert!(node.currents.is_empty());
        assert!(node.next_component_tensions.is_empty());
        assert!(node.potentials.is_empty());
    }
}

#[test]
fn series_divider_at_a_pulse() {
    let mut circuit: Circ = Circuit::new();
    circuit.content_mut().push_serie(resistor(1.0)).push_serie(resistor(3.0));
    circuit.add_pulse(W(2.0), c(8.0, 0.0));
    circuit.init().unwrap();
    let root = circuit.get_node(&[]).unwrap();
    assert!(root.currents[0].near(c(2.0, 0.0)));
    let first = circuit.get_node(&[0]).unwrap();
    let second = circuit.get_node(&[1]).unwrap();
    assert!(first.next_component_tensions[0].near(c(2.0, 0.0)));
    assert!(first.potentials[0].near(c(8.0, 0.0)));
    assert!(second.next_component_tensions[0].near(c(6.0, 0.0)));
    assert!(second.potentials[0].near(c(6.0, 0.0)));
}

#[test]
fn parallel_branch_shares_the_current() {
    let mut circuit: Circ = Circuit::new();
    circuit.content_mut().push_parallel(resistor(2.0)).push_parallel(resistor(2.0));
    circuit.add_pulse(W(1.0), c(4.0, 0.0));
    circuit.init().unwrap();
    for id in [[0u8], [1u8]] {
        let node = circuit.get_node(&id).unwrap();
        assert!(node.currents[0].near(c(2.0, 0.0)));
        assert!(node.next_component_tensions[0].near(c(4.0, 0.0)));
        assert!(node.potentials[0].near(c(4.0, 0.0)));
    }
}

#[test]
fn constant_current_through_the_inductor() {
    let mut circuit: Circ = Circuit::new();
    circuit.content_mut().push_serie(resistor(2.0));
    let mut pair = inductor(1.0);
    pair.push_parallel(resistor(5.0));
    circuit.content_mut().push_serie(pair);
    circuit.add_pulse(W(0.0), c(4.0, 0.0));
    circuit.init().unwrap();
    let l = circuit.get_node(&[1, 0]).unwrap();
    let r = circuit.get_node(&[1, 1]).unwrap();
    assert!(l.currents[0].near(c(2.0, 0.0)));
    assert!(r.currents[0].near(c(0.0, 0.0)));
}

#[test]
fn current_into_an_open_branch_is_a_short_circuit() {
    let mut chain = capacitor(2.0);
    chain.push_serie(capacitor(2.0));
    chain.assign_ids(vec![]);
    chain.init_impedance().unwrap();
    let r = chain.init_current_tension_potential(c(1.0, 0.0), c(1.0, 0.0), c(1.0, 0.0), &W(0.0));
    let message = solve_message(r.err().unwrap());
    assert_eq!(message, "a non zero constant current flows into a zero admittance component [0]");
}

#[test]
fn currents_before_impedance_are_refused() {
    let mut comp = resistor(1.0);
    let r = comp.init_current_tension_potential(c(1.0, 0.0), c(1.0, 0.0), c(1.0, 0.0), &W(1.0));
    assert!(matches!(r, Err(Error::CircuitBuild(_))));
}

#[test]
fn init_stops_at_the_short_circuit() {
    let mut circuit: Circ = Circuit::new();
    circuit.content_mut().push_serie(inductor(1.0));
    circuit.add_pulse(W(1.0), c(1.0, 0.0));
    circuit.add_pulse(W(0.0), c(1.0, 0.0));
    assert!(circuit.init().is_err());
    assert_eq!(circuit.init_state, CircuitInitState::CircuitNodes);
    assert!(circuit.get_node(&[]).unwrap().currents.is_empty());
    circuit.set_voltage(0, c(0.0, 0.0));
    circuit.init().unwrap();
    assert_eq!(circuit.get_node(&[]).unwrap().currents.len(), 1);
    assert!(circuit.get_node(&[]).unwrap().currents[0].near(c(0.0, -1.0)));
}

#[test]
fn uninit_source_clears_records() {
    let mut circuit: Circ = Circuit::new();
    circuit.content_mut().push_serie(resistor(1.0)).push_serie(resistor(1.0));
    circuit.add_pulse(W(1.0), c(2.0, 0.0));
    circuit.init().unwrap();
    assert_eq!(circuit.get_node(&[1]).unwrap().currents.len(), 1);
    circuit.uninit_source();
    assert_eq!(circuit.init_state, CircuitInitState::CircuitNodes);
    assert!(circuit.get_node(&[1]).unwrap().currents.is_empty());
    assert_eq!(circuit.content().init_state, ComponentInitState::Impedance);
    circuit.uninit_all();
    assert_eq!(circuit.init_state, CircuitInitState::Uninitialized);
    assert_eq!(circuit.content().init_state, ComponentInitState::Uninitialized);
}

#[test]
fn add_pulse_keeps_order_and_replaces() {
    let mut source: Source<W, C> = Source::new();
    source.add_pulse(W(2.0), c(1.0, 0.0));
    source.add_pulse(W(0.0), c(2.0, 0.0));
    source.add_pulse(W(1.0), c(3.0, 0.0));
    source.add_pulse(W(2.0), c(4.0, 0.0));
    let pulses: Vec<f64> = source.voltages().iter().map(|l| l.0 .0).collect();
    assert_eq!(pulses, vec![0.0, 1.0, 2.0]);
    assert_eq!(source.voltages()[2].1, c(4.0, 0.0));
    source.remove_pulse(0);
    assert_eq!(source.voltages().len(), 2);
    source.set_voltage(0, c(9.0, 0.0));
    assert_eq!(source.voltages()[0], (W(1.0), c(9.0, 0.0)));
    source.clear();
    assert!(source.voltages().is_empty());
}

#[test]
fn rules_pick_the_step() {
    assert_eq!(series_step(false, true, false, false), Step::Direct);
    assert_eq!(series_step(true, false, false, false), Step::Direct);
    assert_eq!(series_step(true, true, true, true), Step::Ratio);
    assert_eq!(series_step(true, true, false, true), Step::ShortCircuit);
    assert_eq!(parallel_step(true, true, true, true), Step::Ratio);
    assert_eq!(parallel_step(true, true, false, true), Step::ShortCircuit);
    assert_eq!(parallel_step(true, false, false, false), Step::Direct);
    assert_eq!(line_step(true, true, true), LineStep::Skip);
    assert_eq!(line_step(false, true, true), LineStep::ShortCircuit);
    assert_eq!(line_step(false, true, false), LineStep::Solve);
}

#[test]
fn ids_are_written_in_decimal() {
    assert_eq!(id_string(&[]), "[]");
    assert_eq!(id_string(&[0, 12, 255]), "[0, 12, 255]");
    let e = short_circuit(true, &[3]);
    assert_eq!(solve_message(e), "a non zero constant current flows into a zero admittance component [3]");
}

#[test]
fn levels_are_ordered() {
    assert_eq!(ComponentInitState::default(), ComponentInitState::Uninitialized);
    assert_eq!(CircuitInitState::default(), CircuitInitState::Uninitialized);
    assert!(ComponentInitState::Impedance.level() < ComponentInitState::CurrentTensionPotential.level());
    assert_eq!(ComponentInitState::CurrentTensionPotential.lowered_to_impedance(), ComponentInitState::Impedance);
    assert_eq!(CircuitInitState::Source.lowered_to_nodes(), CircuitInitState::CircuitNodes);
    let node: Node<C> = Node::new();
    assert!(node.currents.is_empty());
}

#[test]
fn changes_in_place_drop_what_was_computed() {
    let mut circuit: Circ = Circuit::new();
    circuit.content_mut().push_serie(resistor(1.0)).push_serie(resistor(1.0));
    circuit.add_pulse(W(1.0), c(2.0, 0.0));
    circuit.init().unwrap();
    circuit.get_node_mut(&[0]).unwrap().currents.push(c(7.0, 0.0));
    assert_eq!(circuit.get_node(&[0]).unwrap().currents.len(), 2);
    assert!(circuit.get_node_mut(&[5]).is_none());
    let child = circuit.get_comp_by_id_mut(&[1]).unwrap();
    child.push_parallel(resistor(1.0));
    assert_eq!(circuit.init_state, CircuitInitState::Uninitialized);
    assert!(circuit.get_node(&[0]).unwrap().currents.is_empty());
    circuit.init().unwrap();
    assert!(root_impedance(&circuit, 1.0).near(c(1.5, 0.0)));
    assert!(circuit.get_comp_by_id_mut(&[2]).is_none());
}

#[test]
fn component_impedance_at_a_pulse() {
    let mut comp = resistor(2.0);
    assert!(comp.impedance(&W(1.0)).is_none());
    comp.push_serie(inductor(0.5)).swap(0, 1).unwrap().init_impedance().unwrap();
    assert!(comp.impedance(&W(4.0)).unwrap().near(c(2.0, 2.0)));
    assert!(matches!(comp.get_comp_by_id(&[0]).unwrap().content, ComponentContent::Simple(Dipole::Inductor(_))));
}

#[test]
fn errors_as_text() {
    let mut empty: Circ = Circuit::new();
    let e = empty.init().err().unwrap();
    assert_eq!(e.to_string(), "CircuitBuild: impedance of an uninitialized component");
    let s = short_circuit(false, &[1, 0]);
    assert_eq!(
        s.to_string(),
        "CircuitSolve: a non zero constant tension is applied to a zero impedance component [1, 0]"
    );
    let node: Node<C> = Node::default();
    assert!(node.potentials.is_empty());
    let comp: Comp = Component::default();
    assert!(matches!(comp.content, ComponentContent::Poisoned));
}

#[test]
fn empty_tree_takes_only_the_content() {
    let mut computed = resistor(2.0);
    computed.init_impedance().unwrap();
    let mut empty: Comp = Component::new();
    empty.push_serie(computed);
    assert!(matches!(empty.content, ComponentContent::Simple(Dipole::Resistor(r)) if r == 2.0));
    assert!(empty.impedance.is_none());
    assert_eq!(empty.init_state, ComponentInitState::Uninitialized);
}

#[test]
fn init_nodes_empties_records() {
    let mut circuit: Circ = Circuit::new();
    circuit.content_mut().push_serie(resistor(1.0)).push_serie(resistor(1.0));
    circuit.add_pulse(W(1.0), c(2.0, 0.0));
    circuit.init().unwrap();
    assert_eq!(circuit.get_node(&[0]).unwrap().currents.len(), 1);
    circuit.init_state = CircuitInitState::CircuitNodes;
    circuit.init_nodes().unwrap();
    assert!(circuit.get_node(&[0]).unwrap().currents.is_empty());
    assert!(circuit.get_node(&[]).unwrap().potentials.is_empty());
    circuit.init().unwrap();
    assert_eq!(circuit.get_node(&[]).unwrap().currents.len(), 1);
}
