//! Handing one spectral line of the source down the tree: the current,
//! tension and potential of every component at that line.
use vstd::prelude::*;
use crate::algebra::{Evaluate, Phasor, Pulse, RationalImpedance};
use crate::component::{Component, ComponentContent, impedance_sum};
use crate::error::{Error, short_circuit, short_circuit_text};
use crate::node::Node;
use crate::rules::{LineStep, Step, line_step, parallel_rule, parallel_step, series_rule, series_step};
use crate::state::ComponentInitState;

verus! {

impl<A> Node<A> {
    /// Whether `self` is `other` with one more line recorded.
    pub open spec fn one_more_line(self, other: Self) -> bool {
        &&& self.currents.len() == other.currents.len() + 1
        &&& self.currents@.subrange(0, other.currents.len() as int) == other.currents@
        &&& self.next_component_tensions.len() == other.next_component_tensions.len() + 1
        &&& self.next_component_tensions@.subrange(0, other.next_component_tensions.len() as int)
            == other.next_component_tensions@
        &&& self.potentials.len() == other.potentials.len() + 1
        &&& self.potentials@.subrange(0, other.potentials.len() as int) == other.potentials@
    }
}

impl<V, Z, A> Component<V, Z, A> {
    /// Whether the impedance of every component below this one is computed.
    pub open spec fn all_known(self) -> bool
        decreases self,
    {
        &&& self.impedance_known()
        &&& forall|i: int|
            0 <= i < self.children().len() ==> (#[trigger] self.children()[i]).all_known()
    }

    /// Whether `self` is `other` with one more line recorded at every
    /// position, every position at the level of currents.
    pub open spec fn one_more_line(self, other: Self) -> bool
        decreases self,
    {
        &&& self.fore_node_id@ == other.fore_node_id@
        &&& self.impedance == other.impedance
        &&& self.init_state == ComponentInitState::CurrentTensionPotential
        &&& self.node.one_more_line(other.node)
        &&& match (self.content, other.content) {
            (ComponentContent::Series(_), ComponentContent::Series(_)) => true,
            (ComponentContent::Parallel(_), ComponentContent::Parallel(_)) => true,
            (ComponentContent::Simple(d), ComponentContent::Simple(e)) => d == e,
            (ComponentContent::Poisoned, ComponentContent::Poisoned) => true,
            _ => false,
        }
        &&& self.children().len() == other.children().len()
        &&& forall|i: int|
            0 <= i < self.children().len() ==> (#[trigger] self.children()[i]).one_more_line(
                other.children()[i],
            )
    }
}

/// A line more at every position of an aligned tree leaves it aligned.
pub proof fn lemma_one_more_line_aligned<V, Z, A>(a: Component<V, Z, A>, b: Component<V, Z, A>, n: nat)
    requires
        a.one_more_line(b),
        b.aligned(n),
    ensures
        a.aligned(n + 1),
    decreases a,
{
    assert forall|i: int| 0 <= i < a.children().len() implies (#[trigger] a.children()[i]).aligned(n + 1) by {
        match a.content {
            ComponentContent::Series(cs) => {
                assert(decreases_to!(cs => cs[i]));
                lemma_one_more_line_aligned(cs[i], b.children()[i], n);
            },
            ComponentContent::Parallel(cs) => {
                assert(decreases_to!(cs => cs[i]));
                lemma_one_more_line_aligned(cs[i], b.children()[i], n);
            },
            _ => {},
        }
    }
}

/// A reason why a line cannot be handed down: `(true, _, _)` for an
/// impedance that is not computed, `(false, by_current, id)` for a short
/// circuit at the component `id`, by a current forced into an open child of a
/// series branch where `by_current`, else by a tension forced across a wire
/// in a parallel branch.
pub type Fault = (bool, bool, Seq<u8>);

/// Whether the error `e` is the one reported for the fault `f`.
pub open spec fn reports(e: Error, f: Fault) -> bool {
    if f.0 {
        e.is_build()
    } else {
        e matches Error::CircuitSolve(m) && m@ == short_circuit_text(f.1, f.2)
    }
}

impl<V, Z: RationalImpedance<V>, A: Phasor> Component<V, Z, A> {
    /// The tension of the child `i` of a series branch of impedance `parent`
    /// and children `cs`, which carries `current` under `tension`: the current
    /// times the child's impedance at the pulse or, at the ratio step, the
    /// branch's tension times the ratio of the child's leading coefficient to
    /// the branch's.
    pub open spec fn series_tension<P: Pulse>(
        cs: Seq<Self>,
        parent: Z,
        i: int,
        current: A,
        tension: A,
        pulse: P,
    ) -> A
        where
            Z: Evaluate<P, A>,
    {
        let z = cs[i].impedance->Some_0;
        if series_rule(pulse.spec_is_zero(), z.spec_is_open(), current.spec_is_zero(), parent.spec_is_open())
            == Step::Ratio {
            tension.spec_times(z.spec_zero_without_invx().spec_over(parent.spec_zero_without_invx()))
        } else {
            current.spec_times(z.spec_eval(pulse))
        }
    }

    /// The potential handed to the child `i` of a series branch: the branch's
    /// potential less the tensions of the children before it.
    pub open spec fn series_potential<P: Pulse>(
        cs: Seq<Self>,
        parent: Z,
        i: int,
        current: A,
        tension: A,
        potential: A,
        pulse: P,
    ) -> A
        where
            Z: Evaluate<P, A>,
        decreases i,
    {
        if i <= 0 {
            potential
        } else {
            Self::series_potential(cs, parent, i - 1, current, tension, potential, pulse).spec_minus(
                Self::series_tension(cs, parent, i - 1, current, tension, pulse),
            )
        }
    }

    /// The current of the child `i` of a parallel branch of impedance
    /// `parent`, which carries `current` under `tension`: the tension times
    /// the child's admittance at the pulse or, at the ratio step, the branch's
    /// current times the ratio of the branch's leading coefficient to the
    /// child's.
    pub open spec fn parallel_current<P: Pulse>(
        cs: Seq<Self>,
        parent: Z,
        i: int,
        current: A,
        tension: A,
        pulse: P,
    ) -> A
        where
            Z: Evaluate<P, A>,
    {
        let z = cs[i].impedance->Some_0;
        if parallel_rule(pulse.spec_is_zero(), z.spec_is_wire(), tension.spec_is_zero(), parent.spec_is_wire())
            == Step::Ratio {
            current.spec_times(parent.spec_zero_without_x().spec_over(z.spec_zero_without_x()))
        } else {
            tension.spec_times(z.spec_eval_inverse(pulse))
        }
    }

    /// The step taken for the child `i` of a branch (a series one where
    /// `series`).
    pub open spec fn child_step<P: Pulse>(
        cs: Seq<Self>,
        parent: Z,
        series: bool,
        i: int,
        current: A,
        tension: A,
        pulse: P,
    ) -> Step {
        let z = cs[i].impedance->Some_0;
        if series {
            series_rule(pulse.spec_is_zero(), z.spec_is_open(), current.spec_is_zero(), parent.spec_is_open())
        } else {
            parallel_rule(pulse.spec_is_zero(), z.spec_is_wire(), tension.spec_is_zero(), parent.spec_is_wire())
        }
    }

    /// The current handed to the child `i` of a branch.
    pub open spec fn child_current<P: Pulse>(
        cs: Seq<Self>,
        parent: Z,
        series: bool,
        i: int,
        current: A,
        tension: A,
        pulse: P,
    ) -> A
        where
            Z: Evaluate<P, A>,
    {
        if series {
            current
        } else {
            Self::parallel_current(cs, parent, i, current, tension, pulse)
        }
    }

    /// The tension handed to the child `i` of a branch.
    pub open spec fn child_tension<P: Pulse>(
        cs: Seq<Self>,
        parent: Z,
        series: bool,
        i: int,
        current: A,
        tension: A,
        pulse: P,
    ) -> A
        where
            Z: Evaluate<P, A>,
    {
        if series {
            Self::series_tension(cs, parent, i, current, tension, pulse)
        } else {
            tension
        }
    }

    /// The potential handed to the child `i` of a branch.
    pub open spec fn child_potential<P: Pulse>(
        cs: Seq<Self>,
        parent: Z,
        series: bool,
        i: int,
        current: A,
        tension: A,
        potential: A,
        pulse: P,
    ) -> A
        where
            Z: Evaluate<P, A>,
    {
        if series {
            Self::series_potential(cs, parent, i, current, tension, potential, pulse)
        } else {
            potential
        }
    }

    /// The current of the whole tree under the line (`pulse`, `voltage`):
    /// the amplitude times the admittance at the pulse.
    pub open spec fn line_current<P: Pulse>(self, pulse: P, voltage: A) -> A
        where
            Z: Evaluate<P, A>,
    {
        voltage.spec_times(self.impedance->Some_0.spec_eval_inverse(pulse))
    }

    /// Why the line (`pulse`, `voltage`) of the source cannot be handed down
    /// the tree rooted here: none for a zero amplitude; an impedance not
    /// computed; a short circuit at the root where the tree is a wire at
    /// pulse zero; else the first fault below.
    pub open spec fn line_fault<P: Pulse>(self, pulse: P, voltage: A) -> Option<Fault>
        where
            Z: Evaluate<P, A>,
    {
        if voltage.spec_is_zero() {
            None
        } else if !(self.impedance is Some) {
            Some((true, false, Seq::empty()))
        } else if pulse.spec_is_zero() && self.impedance->Some_0.spec_is_wire() {
            Some((false, false, self.fore_node_id@))
        } else {
            self.fault(self.line_current(pulse, voltage), voltage, pulse)
        }
    }

    /// The first reason, in the order of the tree, why the line of pulse
    /// `pulse` cannot be handed down from here with `current` and `tension`;
    /// none where it can.
    pub open spec fn fault<P: Pulse>(self, current: A, tension: A, pulse: P) -> Option<Fault>
        where
            Z: Evaluate<P, A>,
        decreases self, self.children().len() + 1,
    {
        if !self.impedance_known() {
            Some((true, false, Seq::empty()))
        } else {
            match self.content {
                ComponentContent::Series(cs) => Self::children_fault(
                    cs@,
                    self.impedance->Some_0,
                    true,
                    0,
                    current,
                    tension,
                    pulse,
                ),
                ComponentContent::Parallel(cs) => Self::children_fault(
                    cs@,
                    self.impedance->Some_0,
                    false,
                    0,
                    current,
                    tension,
                    pulse,
                ),
                _ => None,
            }
        }
    }

    /// The first fault among the children of a branch from the child `i` on.
    pub open spec fn children_fault<P: Pulse>(
        cs: Seq<Self>,
        parent: Z,
        series: bool,
        i: int,
        current: A,
        tension: A,
        pulse: P,
    ) -> Option<Fault>
        where
            Z: Evaluate<P, A>,
        decreases cs, cs.len() - i,
    {
        if i < 0 || i >= cs.len() {
            None
        } else if !(cs[i].impedance is Some) {
            Some((true, false, Seq::empty()))
        } else if Self::child_step(cs, parent, series, i, current, tension, pulse) == Step::ShortCircuit {
            Some((false, series, cs[i].fore_node_id@))
        } else {
            match cs[i].fault(
                Self::child_current(cs, parent, series, i, current, tension, pulse),
                Self::child_tension(cs, parent, series, i, current, tension, pulse),
                pulse,
            ) {
                Some(f) => Some(f),
                None => Self::children_fault(cs, parent, series, i + 1, current, tension, pulse),
            }
        }
    }

    /// Whether `self` is `other` with the line of pulse `pulse` recorded at
    /// every position: `current`, `tension` and `potential` here, and at each
    /// child what the branch hands to it.
    pub open spec fn handed_down<P: Pulse>(
        self,
        other: Self,
        current: A,
        tension: A,
        potential: A,
        pulse: P,
    ) -> bool
        where
            Z: Evaluate<P, A>,
        decreases self,
    {
        &&& self.fore_node_id@ == other.fore_node_id@
        &&& self.impedance == other.impedance
        &&& self.init_state == ComponentInitState::CurrentTensionPotential
        &&& self.node.currents@ == other.node.currents@.push(current)
        &&& self.node.next_component_tensions@ == other.node.next_component_tensions@.push(tension)
        &&& self.node.potentials@ == other.node.potentials@.push(potential)
        &&& match (self.content, other.content) {
            (ComponentContent::Series(_), ComponentContent::Series(_)) => true,
            (ComponentContent::Parallel(_), ComponentContent::Parallel(_)) => true,
            (ComponentContent::Simple(d), ComponentContent::Simple(e)) => d == e,
            (ComponentContent::Poisoned, ComponentContent::Poisoned) => true,
            _ => false,
        }
        &&& self.children().len() == other.children().len()
        &&& forall|i: int|
            0 <= i < self.children().len() ==> (#[trigger] self.children()[i]).handed_down(
                other.children()[i],
                Self::child_current(
                    other.children(),
                    other.impedance->Some_0,
                    other.content is Series,
                    i,
                    current,
                    tension,
                    pulse,
                ),
                Self::child_tension(
                    other.children(),
                    other.impedance->Some_0,
                    other.content is Series,
                    i,
                    current,
                    tension,
                    pulse,
                ),
                Self::child_potential(
                    other.children(),
                    other.impedance->Some_0,
                    other.content is Series,
                    i,
                    current,
                    tension,
                    potential,
                    pulse,
                ),
                pulse,
            )
    }
}

impl<V, Z, A> Component<V, Z, A> {
    /// Whether `self` and `other` have the same shape, dipoles, identifiers
    /// and impedances, known at the same positions: all that decides what a
    /// line handed down meets. Records and levels above the impedance may
    /// differ.
    pub open spec fn alike(self, other: Self) -> bool
        decreases self,
    {
        &&& self.impedance == other.impedance
        &&& self.impedance_known() == other.impedance_known()
        &&& self.fore_node_id@ == other.fore_node_id@
        &&& match (self.content, other.content) {
            (ComponentContent::Series(_), ComponentContent::Series(_)) => true,
            (ComponentContent::Parallel(_), ComponentContent::Parallel(_)) => true,
            (ComponentContent::Simple(d), ComponentContent::Simple(e)) => d == e,
            (ComponentContent::Poisoned, ComponentContent::Poisoned) => true,
            _ => false,
        }
        &&& self.children().len() == other.children().len()
        &&& forall|i: int|
            0 <= i < self.children().len() ==> (#[trigger] self.children()[i]).alike(
                other.children()[i],
            )
    }
}

impl<V, Z, A> Component<V, Z, A> {
    /// Whether `self` has the shape, the identifiers and the impedances of
    /// `other`, at every position; records and levels may differ.
    pub open spec fn keeps_impedances(self, other: Self) -> bool
        decreases self,
    {
        &&& self.impedance == other.impedance
        &&& self.fore_node_id@ == other.fore_node_id@
        &&& self.content is Series == other.content is Series
        &&& self.content is Parallel == other.content is Parallel
        &&& self.children().len() == other.children().len()
        &&& forall|i: int|
            0 <= i < self.children().len() ==> (#[trigger] self.children()[i]).keeps_impedances(
                other.children()[i],
            )
    }
}

/// Every tree keeps its own impedances.
pub proof fn lemma_keeps_impedances_refl<V, Z, A>(a: Component<V, Z, A>)
    ensures
        a.keeps_impedances(a),
    decreases a,
{
    assert forall|i: int| 0 <= i < a.children().len() implies (#[trigger] a.children()[i]).keeps_impedances(
        a.children()[i],
    ) by {
        match a.content {
            ComponentContent::Series(cs) => {
                assert(decreases_to!(cs => cs[i]));
                lemma_keeps_impedances_refl(cs[i]);
            },
            ComponentContent::Parallel(cs) => {
                assert(decreases_to!(cs => cs[i]));
                lemma_keeps_impedances_refl(cs[i]);
            },
            _ => {},
        }
    }
}

/// The children from `i` on, left as they were, keep their impedances.
proof fn lemma_rest_keeps_impedances<V, Z, A>(xs: Seq<Component<V, Z, A>>, ys: Seq<Component<V, Z, A>>, i: int)
    requires
        xs.len() == ys.len(),
        forall|j: int| 0 <= j < i && j < xs.len() ==> (#[trigger] xs[j]).keeps_impedances(ys[j]),
        forall|j: int| i <= j < xs.len() ==> #[trigger] xs[j] == ys[j],
    ensures
        forall|j: int| 0 <= j < xs.len() ==> (#[trigger] xs[j]).keeps_impedances(ys[j]),
{
    assert forall|j: int| 0 <= j < xs.len() implies (#[trigger] xs[j]).keeps_impedances(ys[j]) by {
        if j >= i {
            lemma_keeps_impedances_refl(ys[j]);
        }
    }
}

/// A tree with a line handed down keeps its impedances.
pub proof fn lemma_handed_down_keeps_impedances<
    V,
    Z: RationalImpedance<V> + Evaluate<P, A>,
    A: Phasor,
    P: Pulse,
>(a: Component<V, Z, A>, b: Component<V, Z, A>, current: A, tension: A, potential: A, pulse: P)
    requires
        a.handed_down(b, current, tension, potential, pulse),
    ensures
        a.keeps_impedances(b),
    decreases a,
{
    assert forall|i: int| 0 <= i < a.children().len() implies (#[trigger] a.children()[i]).keeps_impedances(
        b.children()[i],
    ) by {
        let bs = b.children();
        let z = b.impedance->Some_0;
        let series = b.content is Series;
        match a.content {
            ComponentContent::Series(cs) => {
                assert(decreases_to!(cs => cs[i]));
                lemma_handed_down_keeps_impedances(
                    cs[i],
                    bs[i],
                    Component::<V, Z, A>::child_current(bs, z, series, i, current, tension, pulse),
                    Component::<V, Z, A>::child_tension(bs, z, series, i, current, tension, pulse),
                    Component::<V, Z, A>::child_potential(bs, z, series, i, current, tension, potential, pulse),
                    pulse,
                );
            },
            ComponentContent::Parallel(cs) => {
                assert(decreases_to!(cs => cs[i]));
                lemma_handed_down_keeps_impedances(
                    cs[i],
                    bs[i],
                    Component::<V, Z, A>::child_current(bs, z, series, i, current, tension, pulse),
                    Component::<V, Z, A>::child_tension(bs, z, series, i, current, tension, pulse),
                    Component::<V, Z, A>::child_potential(bs, z, series, i, current, tension, potential, pulse),
                    pulse,
                );
            },
            _ => {},
        }
    }
}

/// A line meets the same fault in two trees alike.
pub proof fn lemma_fault_follows<V, Z: RationalImpedance<V> + Evaluate<P, A>, A: Phasor, P: Pulse>(
    a: Component<V, Z, A>,
    b: Component<V, Z, A>,
    current: A,
    tension: A,
    pulse: P,
)
    requires
        a.alike(b),
    ensures
        a.fault(current, tension, pulse) == b.fault(current, tension, pulse),
    decreases a, a.children().len() + 1,
{
    if a.impedance_known() {
        match a.content {
            ComponentContent::Series(cs) => {
                lemma_children_fault_follows(cs@, b.children(), a.impedance->Some_0, true, 0, current, tension, pulse);
            },
            ComponentContent::Parallel(cs) => {
                lemma_children_fault_follows(cs@, b.children(), a.impedance->Some_0, false, 0, current, tension, pulse);
            },
            _ => {},
        }
    }
}

/// [`lemma_fault_follows`] for the children of a branch, from the child `i`
/// on.
pub proof fn lemma_children_fault_follows<
    V,
    Z: RationalImpedance<V> + Evaluate<P, A>,
    A: Phasor,
    P: Pulse,
>(
    xs: Seq<Component<V, Z, A>>,
    ys: Seq<Component<V, Z, A>>,
    parent: Z,
    series: bool,
    i: int,
    current: A,
    tension: A,
    pulse: P,
)
    requires
        xs.len() == ys.len(),
        forall|j: int| 0 <= j < xs.len() ==> (#[trigger] xs[j]).alike(ys[j]),
    ensures
        Component::<V, Z, A>::children_fault(xs, parent, series, i, current, tension, pulse)
            == Component::<V, Z, A>::children_fault(ys, parent, series, i, current, tension, pulse),
    decreases xs, xs.len() - i,
{
    if 0 <= i < xs.len() && xs[i].impedance is Some {
        assert(xs[i].alike(ys[i]));
        if Component::<V, Z, A>::child_step(xs, parent, series, i, current, tension, pulse) != Step::ShortCircuit {
            let c = Component::<V, Z, A>::child_current(xs, parent, series, i, current, tension, pulse);
            let t = Component::<V, Z, A>::child_tension(xs, parent, series, i, current, tension, pulse);
            assert(c == Component::<V, Z, A>::child_current(ys, parent, series, i, current, tension, pulse));
            assert(t == Component::<V, Z, A>::child_tension(ys, parent, series, i, current, tension, pulse));
            assert(decreases_to!(xs => xs[i]));
            lemma_fault_follows(xs[i], ys[i], c, t, pulse);
            lemma_children_fault_follows(xs, ys, parent, series, i + 1, current, tension, pulse);
        }
    }
}

/// A line of the source meets the same fault in two trees alike.
pub proof fn lemma_line_fault_follows<V, Z: RationalImpedance<V> + Evaluate<P, A>, A: Phasor, P: Pulse>(
    a: Component<V, Z, A>,
    b: Component<V, Z, A>,
    pulse: P,
    voltage: A,
)
    requires
        a.alike(b),
    ensures
        a.line_fault(pulse, voltage) == b.line_fault(pulse, voltage),
{
    if a.impedance is Some {
        lemma_fault_follows(a, b, a.line_current(pulse, voltage), voltage, pulse);
    }
}

/// A tree with a line more, handed down from a tree whose impedances are all
/// known, is alike for faults.
pub proof fn lemma_handed_down_alike<V, Z: RationalImpedance<V> + Evaluate<P, A>, A: Phasor, P: Pulse>(
    a: Component<V, Z, A>,
    b: Component<V, Z, A>,
    current: A,
    tension: A,
    potential: A,
    pulse: P,
)
    requires
        a.handed_down(b, current, tension, potential, pulse),
        b.all_known(),
    ensures
        a.alike(b),
    decreases a,
{
    assert forall|i: int| 0 <= i < a.children().len() implies (#[trigger] a.children()[i]).alike(
        b.children()[i],
    ) by {
        let bs = b.children();
        let z = b.impedance->Some_0;
        let series = b.content is Series;
        assert(b.children()[i].all_known());
        match a.content {
            ComponentContent::Series(cs) => {
                assert(decreases_to!(cs => cs[i]));
                lemma_handed_down_alike(
                    cs[i],
                    bs[i],
                    Component::<V, Z, A>::child_current(bs, z, series, i, current, tension, pulse),
                    Component::<V, Z, A>::child_tension(bs, z, series, i, current, tension, pulse),
                    Component::<V, Z, A>::child_potential(bs, z, series, i, current, tension, potential, pulse),
                    pulse,
                );
            },
            ComponentContent::Parallel(cs) => {
                assert(decreases_to!(cs => cs[i]));
                lemma_handed_down_alike(
                    cs[i],
                    bs[i],
                    Component::<V, Z, A>::child_current(bs, z, series, i, current, tension, pulse),
                    Component::<V, Z, A>::child_tension(bs, z, series, i, current, tension, pulse),
                    Component::<V, Z, A>::child_potential(bs, z, series, i, current, tension, potential, pulse),
                    pulse,
                );
            },
            _ => {},
        }
    }
}

/// Two trees built from one tree by dropping records and giving the same
/// identifiers are alike.
pub proof fn lemma_built_alike<V, Z, A>(
    a: Component<V, Z, A>,
    b: Component<V, Z, A>,
    c: Component<V, Z, A>,
    prefix: Seq<u8>,
)
    requires
        a.agrees(c, false, true, 1),
        b.agrees(c, false, true, 1),
        a.ids_from(prefix),
        b.ids_from(prefix),
    ensures
        a.alike(b),
    decreases a,
{
    assert forall|i: int| 0 <= i < a.children().len() implies (#[trigger] a.children()[i]).alike(
        b.children()[i],
    ) by {
        match a.content {
            ComponentContent::Series(cs) => {
                assert(decreases_to!(cs => cs[i]));
                lemma_built_alike(cs[i], b.children()[i], c.children()[i], prefix.push(i as u8));
            },
            ComponentContent::Parallel(cs) => {
                assert(decreases_to!(cs => cs[i]));
                lemma_built_alike(cs[i], b.children()[i], c.children()[i], prefix.push(i as u8));
            },
            _ => {},
        }
    }
}

/// Sums over children of the same impedances are equal.
pub proof fn lemma_sum_follows<V, Z: RationalImpedance<V>, A>(
    xs: Seq<Component<V, Z, A>>,
    ys: Seq<Component<V, Z, A>>,
    inverted: bool,
)
    requires
        xs.len() == ys.len(),
        forall|j: int| 0 <= j < xs.len() ==> (#[trigger] xs[j]).impedance == ys[j].impedance,
    ensures
        impedance_sum(xs, inverted) == impedance_sum(ys, inverted),
    decreases xs.len(),
{
    if xs.len() > 0 {
        let (xd, yd) = (xs.drop_last(), ys.drop_last());
        assert forall|j: int| 0 <= j < xd.len() implies (#[trigger] xd[j]).impedance == yd[j].impedance by {
            assert(xd[j] == xs[j] && yd[j] == ys[j]);
        }
        lemma_sum_follows(xd, yd, inverted);
        assert(xs.last().impedance == ys.last().impedance);
    }
}

/// Impedances computed from two trees alike leave them alike.
pub proof fn lemma_computed_alike<V, Z: RationalImpedance<V>, A>(
    a: Component<V, Z, A>,
    x: Component<V, Z, A>,
    b: Component<V, Z, A>,
    y: Component<V, Z, A>,
)
    requires
        a.computed_from(x),
        b.computed_from(y),
        x.alike(y),
    ensures
        a.alike(b),
    decreases a,
{
    if !x.impedance_known() {
        assert forall|i: int| 0 <= i < a.children().len() implies (#[trigger] a.children()[i]).alike(
            b.children()[i],
        ) by {
            match a.content {
                ComponentContent::Series(cs) => {
                    assert(decreases_to!(cs => cs[i]));
                    lemma_computed_alike(cs[i], x.children()[i], b.children()[i], y.children()[i]);
                },
                ComponentContent::Parallel(cs) => {
                    assert(decreases_to!(cs => cs[i]));
                    lemma_computed_alike(cs[i], x.children()[i], b.children()[i], y.children()[i]);
                },
                _ => {},
            }
        }
        assert forall|j: int| 0 <= j < a.children().len() implies (#[trigger] a.children()[j]).impedance
            == b.children()[j].impedance by {
            assert(a.children()[j].alike(b.children()[j]));
        }
        match a.content {
            ComponentContent::Series(cs) => lemma_sum_follows(cs@, b.children(), false),
            ComponentContent::Parallel(cs) => lemma_sum_follows(cs@, b.children(), true),
            _ => {},
        }
    }
}

/// Every tree is alike to itself.
pub proof fn lemma_alike_refl<V, Z, A>(a: Component<V, Z, A>)
    ensures
        a.alike(a),
    decreases a,
{
    assert forall|i: int| 0 <= i < a.children().len() implies (#[trigger] a.children()[i]).alike(
        a.children()[i],
    ) by {
        match a.content {
            ComponentContent::Series(cs) => {
                assert(decreases_to!(cs => cs[i]));
                lemma_alike_refl(cs[i]);
            },
            ComponentContent::Parallel(cs) => {
                assert(decreases_to!(cs => cs[i]));
                lemma_alike_refl(cs[i]);
            },
            _ => {},
        }
    }
}

/// Being alike is transitive.
pub proof fn lemma_alike_trans<V, Z, A>(a: Component<V, Z, A>, b: Component<V, Z, A>, c: Component<V, Z, A>)
    requires
        a.alike(b),
        b.alike(c),
    ensures
        a.alike(c),
    decreases a,
{
    assert forall|i: int| 0 <= i < a.children().len() implies (#[trigger] a.children()[i]).alike(
        c.children()[i],
    ) by {
        match a.content {
            ComponentContent::Series(cs) => {
                assert(decreases_to!(cs => cs[i]));
                lemma_alike_trans(cs[i], b.children()[i], c.children()[i]);
            },
            ComponentContent::Parallel(cs) => {
                assert(decreases_to!(cs => cs[i]));
                lemma_alike_trans(cs[i], b.children()[i], c.children()[i]);
            },
            _ => {},
        }
    }
}

/// A tree that keeps the impedances of a tree alike to a third keeps those
/// of the third.
pub proof fn lemma_keeps_impedances_of_alike<V, Z, A>(
    a: Component<V, Z, A>,
    b: Component<V, Z, A>,
    c: Component<V, Z, A>,
)
    requires
        a.keeps_impedances(b),
        b.alike(c),
    ensures
        a.keeps_impedances(c),
    decreases a,
{
    assert forall|i: int| 0 <= i < a.children().len() implies (#[trigger] a.children()[i]).keeps_impedances(
        c.children()[i],
    ) by {
        match a.content {
            ComponentContent::Series(cs) => {
                assert(decreases_to!(cs => cs[i]));
                lemma_keeps_impedances_of_alike(cs[i], b.children()[i], c.children()[i]);
            },
            ComponentContent::Parallel(cs) => {
                assert(decreases_to!(cs => cs[i]));
                lemma_keeps_impedances_of_alike(cs[i], b.children()[i], c.children()[i]);
            },
            _ => {},
        }
    }
}

impl<V, Z, A> Component<V, Z, A> {
    /// The impedance of the component at `pulse`, once computed.
    pub fn impedance<P>(&self, pulse: &P) -> (r: Option<A>)
        where
            Z: Evaluate<P, A>,
        ensures
            r is Some <==> self.impedance is Some,
            r is Some ==> r->Some_0 == self.impedance->Some_0.spec_eval(*pulse),
    {
        match &self.impedance {
            Some(z) => Some(z.eval(pulse)),
            None => None,
        }
    }
}

impl<V, Z: RationalImpedance<V>, A: Phasor> Component<V, Z, A> {
    /// Records `current`, `tension` and `fore_potential` as this component's
    /// share of a line of pulse `pulse`, and hands the line down to the
    /// children.
    ///
    /// The children of a series branch carry its current, and their tensions
    /// are taken in turn from the potential; the children of a parallel
    /// branch bear its tension and potential. The share of each child is
    /// found by [`series_step`] or [`parallel_step`]. An error where an
    /// impedance is not computed, or at the first short circuit, which names
    /// the child.
    pub fn init_current_tension_potential<P: Pulse>(
        &mut self,
        current: A,
        tension: A,
        fore_potential: A,
        pulse: &P,
    ) -> (r: Result<&mut Self, Error>)
        where
            Z: Evaluate<P, A>,
        ensures
            r is Ok ==> *final(self) == *final(r->Ok_0),
            r is Ok ==> r->Ok_0.one_more_line(*old(self)),
            r is Ok ==> r->Ok_0.node.currents@ == old(self).node.currents@.push(current),
            r is Ok ==> r->Ok_0.node.next_component_tensions@
                == old(self).node.next_component_tensions@.push(tension),
            r is Ok ==> r->Ok_0.node.potentials@ == old(self).node.potentials@.push(fore_potential),
            r is Ok ==> r->Ok_0.handed_down(*old(self), current, tension, fore_potential, *pulse),
            r is Ok ==> old(self).all_known(),
            r is Ok <==> old(self).fault(current, tension, *pulse) is None,
            r is Err ==> reports(r->Err_0, old(self).fault(current, tension, *pulse)->Some_0),
            r is Err && !old(self).impedance_known() ==> r->Err_0.is_build() && *final(self) == *old(self),
            r is Err ==> final(self).keeps_impedances(*old(self)),
    {
        match self.propagate(current, tension, fore_potential, pulse) {
            Ok(()) => Ok(self),
            Err(e) => Err(e),
        }
    }

    /// Hands the line of pulse `pulse` and amplitude `voltage` of the source
    /// down the tree rooted here: the root bears the tension `voltage`, its
    /// potential is `voltage`, and its current is `voltage` times its
    /// admittance. A line of zero amplitude is skipped. A tree that is a wire
    /// at pulse zero cannot bear a tension: a short circuit.
    pub fn solve_line<P: Pulse>(&mut self, pulse: &P, voltage: &A) -> (r: Result<(), Error>)
        where
            Z: Evaluate<P, A>,
        ensures
            r is Ok <==> old(self).line_fault(*pulse, *voltage) is None,
            r is Err ==> reports(r->Err_0, old(self).line_fault(*pulse, *voltage)->Some_0),
            r is Err && (old(self).impedance is None || pulse.spec_is_zero()
                && old(self).impedance->Some_0.spec_is_wire()) ==> *final(self) == *old(self),
            r is Ok && voltage.spec_is_zero() ==> *final(self) == *old(self),
            r is Ok && !voltage.spec_is_zero() ==> final(self).handed_down(
                *old(self),
                old(self).line_current(*pulse, *voltage),
                *voltage,
                *voltage,
                *pulse,
            ),
            r is Ok ==> *final(self) == *old(self) || final(self).one_more_line(*old(self)),
            r is Ok && final(self).one_more_line(*old(self)) ==> old(self).all_known(),
            r is Err ==> final(self).node == old(self).node,
            final(self).keeps_impedances(*old(self)),
    {
        proof {
            lemma_keeps_impedances_refl(*self);
        }
        if voltage.is_zero() {
            return Ok(());
        }
        let root = match &self.impedance {
            Some(z) => z,
            None => {
                return Err(
                    Error::CircuitBuild(String::from_str("currents and tensions asked before the impedance")),
                );
            },
        };
        match line_step(false, pulse.is_zero(), root.is_multiple_of_x()) {
            LineStep::Solve => {
                let current = voltage.times(&root.eval_inverse(pulse));
                self.propagate(current, voltage.copy(), voltage.copy(), pulse)
            },
            _ => Err(short_circuit(false, self.fore_node_id.as_slice())),
        }
    }

    fn propagate<P: Pulse>(&mut self, current: A, tension: A, fore_potential: A, pulse: &P) -> (r:
        Result<(), Error>)
        where
            Z: Evaluate<P, A>,
        ensures
            r is Ok <==> old(self).fault(current, tension, *pulse) is None,
            r is Ok ==> final(self).handed_down(*old(self), current, tension, fore_potential, *pulse),
            r is Ok ==> final(self).one_more_line(*old(self)),
            r is Ok ==> old(self).all_known(),
            r is Err ==> reports(r->Err_0, old(self).fault(current, tension, *pulse)->Some_0),
            r is Err && !old(self).impedance_known() ==> *final(self) == *old(self),
            r is Err ==> final(self).node == old(self).node,
            final(self).keeps_impedances(*old(self)),
        decreases *old(self),
    {
        if self.init_state.level() < 1 || self.impedance.is_none() {
            proof {
                lemma_keeps_impedances_refl(*self);
            }
            return Err(
                Error::CircuitBuild(String::from_str("currents and tensions asked before the impedance")),
            );
        }
        let ghost before = *self;
        let parent = match &self.impedance {
            Some(z) => z,
            None => {
                return Err(
                    Error::CircuitBuild(String::from_str("currents and tensions asked before the impedance")),
                );
            },
        };
        let r = match &mut self.content {
            ComponentContent::Series(cs) => {
                let ghost kids = cs@;
                assert(kids == before.children());
                let r = propagate_series(cs, parent, &current, &tension, fore_potential.copy(), pulse);
                assert(r is Ok ==> forall|i: int|
                    0 <= i < kids.len() ==> (#[trigger] kids[i]).all_known());
                r
            },
            ComponentContent::Parallel(cs) => {
                let ghost kids = cs@;
                assert(kids == before.children());
                let r = propagate_parallel(cs, parent, &current, &tension, &fore_potential, pulse);
                assert(r is Ok ==> forall|i: int|
                    0 <= i < kids.len() ==> (#[trigger] kids[i]).all_known());
                r
            },
            _ => Ok(()),
        };
        match r {
            Ok(()) => {},
            Err(e) => {
                return Err(e);
            },
        }
        assert(before.all_known());
        self.node.record(current, tension, fore_potential);
        self.init_state = ComponentInitState::CurrentTensionPotential;
        proof {
            assert(final(self).node.currents@.subrange(0, before.node.currents.len() as int)
                =~= before.node.currents@);
            assert(final(self).node.next_component_tensions@.subrange(
                0,
                before.node.next_component_tensions.len() as int,
            ) =~= before.node.next_component_tensions@);
            assert(final(self).node.potentials@.subrange(0, before.node.potentials.len() as int)
                =~= before.node.potentials@);
        }
        Ok(())
    }
}

fn propagate_series<V, Z: RationalImpedance<V> + Evaluate<P, A>, A: Phasor, P: Pulse>(
    cs: &mut Vec<Component<V, Z, A>>,
    parent: &Z,
    current: &A,
    tension: &A,
    fore_potential: A,
    pulse: &P,
) -> (r: Result<(), Error>)
    ensures
        final(cs).len() == old(cs).len(),
        r is Ok <==> Component::<V, Z, A>::children_fault(old(cs)@, *parent, true, 0, *current, *tension, *pulse)
            is None,
        r is Err ==> reports(
            r->Err_0,
            Component::<V, Z, A>::children_fault(old(cs)@, *parent, true, 0, *current, *tension, *pulse)->Some_0,
        ),
        r is Ok ==> forall|i: int|
            0 <= i < old(cs).len() ==> (#[trigger] final(cs)@[i]).handed_down(
                old(cs)@[i],
                Component::<V, Z, A>::child_current(old(cs)@, *parent, true, i, *current, *tension, *pulse),
                Component::<V, Z, A>::child_tension(old(cs)@, *parent, true, i, *current, *tension, *pulse),
                Component::<V, Z, A>::child_potential(
                    old(cs)@,
                    *parent,
                    true,
                    i,
                    *current,
                    *tension,
                    fore_potential,
                    *pulse,
                ),
                *pulse,
            ),
        r is Ok ==> forall|i: int|
            0 <= i < old(cs).len() ==> (#[trigger] final(cs)@[i]).one_more_line(old(cs)@[i]),
        r is Ok ==> forall|i: int| 0 <= i < old(cs).len() ==> (#[trigger] old(cs)@[i]).all_known(),
        forall|i: int| 0 <= i < old(cs).len() ==> (#[trigger] final(cs)@[i]).keeps_impedances(old(cs)@[i]),
    decreases *old(cs),
{
    let ghost kids = cs@;
    let ghost p0 = fore_potential;
    let n = cs.len();
    let pulse_is_zero = pulse.is_zero();
    let current_is_zero = current.is_zero();
    let parent_is_open = parent.is_multiple_of_invx();
    let mut remaining = fore_potential;
    let mut i: usize = 0;
    while i < n
        invariant
            n == old(cs).len(),
            kids == old(cs)@,
            cs.len() == n,
            i <= n,
            pulse_is_zero == pulse.spec_is_zero(),
            current_is_zero == current.spec_is_zero(),
            parent_is_open == parent.spec_is_open(),
            Component::<V, Z, A>::children_fault(kids, *parent, true, 0, *current, *tension, *pulse)
                == Component::<V, Z, A>::children_fault(kids, *parent, true, i as int, *current, *tension, *pulse),
            remaining == Component::<V, Z, A>::series_potential(kids, *parent, i as int, *current, *tension, p0, *pulse),
            forall|j: int|
                0 <= j < i ==> (#[trigger] cs@[j]).handed_down(
                    kids[j],
                    Component::<V, Z, A>::child_current(kids, *parent, true, j, *current, *tension, *pulse),
                    Component::<V, Z, A>::child_tension(kids, *parent, true, j, *current, *tension, *pulse),
                    Component::<V, Z, A>::child_potential(kids, *parent, true, j, *current, *tension, p0, *pulse),
                    *pulse,
                ),
            forall|j: int| 0 <= j < i ==> (#[trigger] cs@[j]).one_more_line(old(cs)@[j]),
            forall|j: int| 0 <= j < i ==> (#[trigger] old(cs)@[j]).all_known(),
            forall|j: int| 0 <= j < i ==> (#[trigger] cs@[j]).keeps_impedances(old(cs)@[j]),
            forall|j: int| i <= j < n ==> #[trigger] cs@[j] == old(cs)@[j],
        decreases n - i,
    {
        let next_tension = match &cs[i].impedance {
            Some(z) => match series_step(pulse_is_zero, z.is_multiple_of_invx(), current_is_zero, parent_is_open) {
                Step::Direct => current.times(&z.eval(pulse)),
                Step::Ratio => tension.times(&z.eval_zero_without_invx().over(&parent.eval_zero_without_invx())),
                Step::ShortCircuit => {
                    proof {
                        lemma_rest_keeps_impedances(cs@, old(cs)@, i as int);
                    }
                    return Err(short_circuit(true, cs[i].fore_node_id.as_slice()));
                },
            },
            None => {
                proof {
                    lemma_rest_keeps_impedances(cs@, old(cs)@, i as int);
                }
                return Err(
                    Error::CircuitBuild(String::from_str("currents and tensions asked before the impedance")),
                );
            },
        };
        assert(next_tension == Component::<V, Z, A>::series_tension(kids, *parent, i as int, *current, *tension, *pulse));
        let potential = remaining;
        remaining = potential.minus(&next_tension);
        assert(decreases_to!(*old(cs) => old(cs)[i as int]));
        match cs[i].propagate(current.copy(), next_tension, potential, pulse) {
            Ok(()) => {},
            Err(e) => {
                proof {
                    lemma_rest_keeps_impedances(cs@, old(cs)@, i + 1);
                }
                return Err(e);
            },
        }
        proof {
            lemma_handed_down_keeps_impedances(
                cs@[i as int],
                old(cs)@[i as int],
                Component::<V, Z, A>::child_current(kids, *parent, true, i as int, *current, *tension, *pulse),
                Component::<V, Z, A>::child_tension(kids, *parent, true, i as int, *current, *tension, *pulse),
                Component::<V, Z, A>::child_potential(kids, *parent, true, i as int, *current, *tension, p0, *pulse),
                *pulse,
            );
        }
        i += 1;
    }
    Ok(())
}

fn propagate_parallel<V, Z: RationalImpedance<V> + Evaluate<P, A>, A: Phasor, P: Pulse>(
    cs: &mut Vec<Component<V, Z, A>>,
    parent: &Z,
    current: &A,
    tension: &A,
    fore_potential: &A,
    pulse: &P,
) -> (r: Result<(), Error>)
    ensures
        final(cs).len() == old(cs).len(),
        r is Ok <==> Component::<V, Z, A>::children_fault(old(cs)@, *parent, false, 0, *current, *tension, *pulse)
            is None,
        r is Err ==> reports(
            r->Err_0,
            Component::<V, Z, A>::children_fault(old(cs)@, *parent, false, 0, *current, *tension, *pulse)->Some_0,
        ),
        r is Ok ==> forall|i: int|
            0 <= i < old(cs).len() ==> (#[trigger] final(cs)@[i]).handed_down(
                old(cs)@[i],
                Component::<V, Z, A>::child_current(old(cs)@, *parent, false, i, *current, *tension, *pulse),
                Component::<V, Z, A>::child_tension(old(cs)@, *parent, false, i, *current, *tension, *pulse),
                Component::<V, Z, A>::child_potential(
                    old(cs)@,
                    *parent,
                    false,
                    i,
                    *current,
                    *tension,
                    *fore_potential,
                    *pulse,
                ),
                *pulse,
            ),
        r is Ok ==> forall|i: int|
            0 <= i < old(cs).len() ==> (#[trigger] final(cs)@[i]).one_more_line(old(cs)@[i]),
        r is Ok ==> forall|i: int| 0 <= i < old(cs).len() ==> (#[trigger] old(cs)@[i]).all_known(),
        forall|i: int| 0 <= i < old(cs).len() ==> (#[trigger] final(cs)@[i]).keeps_impedances(old(cs)@[i]),
    decreases *old(cs),
{
    let ghost kids = cs@;
    let n = cs.len();
    let pulse_is_zero = pulse.is_zero();
    let tension_is_zero = tension.is_zero();
    let parent_is_wire = parent.is_multiple_of_x();
    let mut i: usize = 0;
    while i < n
        invariant
            n == old(cs).len(),
            kids == old(cs)@,
            cs.len() == n,
            i <= n,
            pulse_is_zero == pulse.spec_is_zero(),
            tension_is_zero == tension.spec_is_zero(),
            parent_is_wire == parent.spec_is_wire(),
            Component::<V, Z, A>::children_fault(kids, *parent, false, 0, *current, *tension, *pulse)
                == Component::<V, Z, A>::children_fault(kids, *parent, false, i as int, *current, *tension, *pulse),
            forall|j: int|
                0 <= j < i ==> (#[trigger] cs@[j]).handed_down(
                    kids[j],
                    Component::<V, Z, A>::child_current(kids, *parent, false, j, *current, *tension, *pulse),
                    Component::<V, Z, A>::child_tension(kids, *parent, false, j, *current, *tension, *pulse),
                    Component::<V, Z, A>::child_potential(
                        kids,
                        *parent,
                        false,
                        j,
                        *current,
                        *tension,
                        *fore_potential,
                        *pulse,
                    ),
                    *pulse,
                ),
            forall|j: int| 0 <= j < i ==> (#[trigger] cs@[j]).one_more_line(old(cs)@[j]),
            forall|j: int| 0 <= j < i ==> (#[trigger] old(cs)@[j]).all_known(),
            forall|j: int| 0 <= j < i ==> (#[trigger] cs@[j]).keeps_impedances(old(cs)@[j]),
            forall|j: int| i <= j < n ==> #[trigger] cs@[j] == old(cs)@[j],
        decreases n - i,
    {
        let next_current = match &cs[i].impedance {
            Some(z) => match parallel_step(pulse_is_zero, z.is_multiple_of_x(), tension_is_zero, parent_is_wire) {
                Step::Direct => tension.times(&z.eval_inverse(pulse)),
                Step::Ratio => current.times(&parent.eval_zero_without_x().over(&z.eval_zero_without_x())),
                Step::ShortCircuit => {
                    proof {
                        lemma_rest_keeps_impedances(cs@, old(cs)@, i as int);
                    }
                    return Err(short_circuit(false, cs[i].fore_node_id.as_slice()));
                },
            },
            None => {
                proof {
                    lemma_rest_keeps_impedances(cs@, old(cs)@, i as int);
                }
                return Err(
                    Error::CircuitBuild(String::from_str("currents and tensions asked before the impedance")),
                );
            },
        };
        assert(next_current == Component::<V, Z, A>::parallel_current(kids, *parent, i as int, *current, *tension, *pulse));
        assert(decreases_to!(*old(cs) => old(cs)[i as int]));
        match cs[i].propagate(next_current, tension.copy(), fore_potential.copy(), pulse) {
            Ok(()) => {},
            Err(e) => {
                proof {
                    lemma_rest_keeps_impedances(cs@, old(cs)@, i + 1);
                }
                return Err(e);
            },
        }
        proof {
            lemma_handed_down_keeps_impedances(
                cs@[i as int],
                old(cs)@[i as int],
                Component::<V, Z, A>::child_current(kids, *parent, false, i as int, *current, *tension, *pulse),
                Component::<V, Z, A>::child_tension(kids, *parent, false, i as int, *current, *tension, *pulse),
                Component::<V, Z, A>::child_potential(kids, *parent, false, i as int, *current, *tension, *fore_potential, *pulse),
                *pulse,
            );
        }
        i += 1;
    }
    Ok(())
}

} // verus!
