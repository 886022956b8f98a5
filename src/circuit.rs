//! A circuit: a tree of components driven by a source.
use vstd::prelude::*;
use crate::algebra::{Evaluate, Phasor, Pulse, RationalImpedance};
use crate::component::{
    Component,
    ComponentContent,
    lemma_cleared_records_are_aligned,
    lemma_agrees_compose,
    lemma_agrees_keeps_fits,
    lemma_kept_records_stay_aligned,
    lemma_lookup_follows_shape,
};
use crate::propagation::{
    lemma_alike_refl,
    lemma_alike_trans,
    lemma_built_alike,
    lemma_computed_alike,
    lemma_handed_down_alike,
    lemma_keeps_impedances_of_alike,
    lemma_line_fault_follows,
    lemma_one_more_line_aligned,
    reports,
};
use crate::error::Error;
use crate::node::Node;
use crate::source::Source;
use crate::state::CircuitInitState;

verus! {

/// The currents recorded at the root of a tree of impedance `z` for the
/// lines `lines`: for each line of non-zero amplitude, in order, its
/// amplitude times the admittance at its pulse.
pub open spec fn root_currents<Z: Evaluate<P, A>, P: Pulse, A: Phasor>(lines: Seq<(P, A)>, z: Z) -> Seq<A>
    decreases lines.len(),
{
    if lines.len() == 0 {
        Seq::empty()
    } else {
        let line = lines.last();
        let before = root_currents(lines.drop_last(), z);
        if line.1.spec_is_zero() {
            before
        } else {
            before.push(line.1.spec_times(z.spec_eval_inverse(line.0)))
        }
    }
}

/// The amplitudes of the lines of non-zero amplitude of `lines`, in order:
/// the tensions and potentials recorded at the root.
pub open spec fn root_tensions<P: Pulse, A: Phasor>(lines: Seq<(P, A)>) -> Seq<A>
    decreases lines.len(),
{
    if lines.len() == 0 {
        Seq::empty()
    } else {
        let line = lines.last();
        let before = root_tensions(lines.drop_last());
        if line.1.spec_is_zero() {
            before
        } else {
            before.push(line.1)
        }
    }
}

/// A tree of components driven by a source, with how far its analysis has
/// gone: any change of the tree drops everything, any change of the source
/// drops what was recorded for the lines.
#[derive(Debug)]
pub struct Circuit<V, Z, P, A> {
    /// How far the analysis has gone.
    pub init_state: CircuitInitState,
    /// The source, applied across the whole tree.
    pub source: Source<P, A>,
    /// The tree of components.
    pub content: Component<V, Z, A>,
}

impl<V, Z, P: Pulse, A> Circuit<V, Z, P, A> {
    /// The number of lines recorded at the root.
    pub open spec fn lines_recorded(self) -> nat {
        self.content.node.currents.len() as nat
    }

    /// Whether every position of the tree has recorded as many lines as the
    /// root, so that the `k`-th entry of every node belongs to one line.
    pub open spec fn records_aligned(self) -> bool {
        self.content.aligned(self.lines_recorded())
    }
}

impl<V, Z, P: Pulse, A> Circuit<V, Z, P, A> {
    /// A circuit with an empty tree and a source with no line.
    pub fn new() -> (r: Self)
        ensures
            r.init_state == CircuitInitState::Uninitialized,
            r.source.voltages@.len() == 0,
            r.content.content is Poisoned,
            r.content.is_reset(Seq::empty()),
    {
        Circuit {
            init_state: CircuitInitState::Uninitialized,
            source: Source::new(),
            content: Component::new(),
        }
    }

    /// Drops everything computed: to be called when the tree changes.
    pub fn uninit_all(&mut self) -> (r: &mut Self)
        ensures
            *final(self) == *final(r),
            r.init_state == CircuitInitState::Uninitialized,
            r.source == old(self).source,
            r.content.agrees(old(self).content, true, true, 0),
    {
        self.init_state = CircuitInitState::Uninitialized;
        self.content.uninit_all();
        self
    }

    /// Drops what was recorded for the lines: to be called when the source
    /// changes.
    pub fn uninit_source(&mut self) -> (r: &mut Self)
        ensures
            *final(self) == *final(r),
            r.init_state.rank() == if old(self).init_state.rank() < 1 {
                old(self).init_state.rank()
            } else {
                1
            },
            r.source == old(self).source,
            r.content.agrees(old(self).content, true, true, 1),
            r.records_aligned(),
            r.lines_recorded() == 0,
    {
        self.init_state = self.init_state.lowered_to_nodes();
        self.content.uninit_current_tension_potential();
        proof {
            lemma_cleared_records_are_aligned(self.content, old(self).content, true, true, 1);
        }
        self
    }

    /// What is recorded at the position `id` of the tree, if there is one.
    pub fn get_node(&self, id: &[u8]) -> (r: Option<&Node<A>>)
        ensures
            r is Some <==> self.content.lookup(id@) is Some,
            r is Some ==> *r->Some_0 == self.content.lookup(id@)->Some_0.node,
    {
        match self.content.get_comp_by_id(id) {
            Some(c) => Some(&c.node),
            None => None,
        }
    }

    /// What is recorded at the position `id` of the tree, if there is one,
    /// to be changed in place.
    pub fn get_node_mut(&mut self, id: &[u8]) -> (r: Option<&mut Node<A>>)
        ensures
            r is Some <==> old(self).content.lookup(id@) is Some,
            r is Some ==> *r->Some_0 == old(self).content.lookup(id@)->Some_0.node,
    {
        match self.content.get_comp_by_id_mut(id) {
            Some(c) => Some(&mut c.node),
            None => None,
        }
    }

    /// The impedance of the whole tree, once computed.
    pub fn impedance(&self) -> (r: Option<&Z>)
        ensures
            r is Some <==> self.content.impedance is Some,
            r is Some ==> *r->Some_0 == self.content.impedance->Some_0,
    {
        match &self.content.impedance {
            Some(z) => Some(z),
            None => None,
        }
    }

    /// The tree of components.
    pub fn content(&self) -> (r: &Component<V, Z, A>)
        ensures
            *r == self.content,
    {
        &self.content
    }

    /// The tree of components, to be changed: everything computed is
    /// dropped first.
    pub fn content_mut(&mut self) -> (r: &mut Component<V, Z, A>)
        ensures
            final(self).init_state == CircuitInitState::Uninitialized,
            final(self).source == old(self).source,
            *final(r) == final(self).content,
            r.agrees(old(self).content, true, true, 0),
    {
        self.init_state = CircuitInitState::Uninitialized;
        self.content.uninit_all();
        &mut self.content
    }

    /// The component at the position `id` of the tree, if there is one.
    pub fn get_comp_by_id(&self, id: &[u8]) -> (r: Option<&Component<V, Z, A>>)
        ensures
            r is Some <==> self.content.lookup(id@) is Some,
            r is Some ==> *r->Some_0 == self.content.lookup(id@)->Some_0,
    {
        self.content.get_comp_by_id(id)
    }

    /// The component at the position `id` of the tree, if there is one, to
    /// be changed: everything computed is dropped first.
    pub fn get_comp_by_id_mut(&mut self, id: &[u8]) -> (r: Option<&mut Component<V, Z, A>>)
        ensures
            final(self).init_state == CircuitInitState::Uninitialized,
            final(self).source == old(self).source,
            r is Some <==> old(self).content.lookup(id@) is Some,
            r is Some ==> r->Some_0.agrees(old(self).content.lookup(id@)->Some_0, true, true, 0),
    {
        self.init_state = CircuitInitState::Uninitialized;
        self.content.uninit_all();
        proof {
            lemma_lookup_follows_shape(self.content, old(self).content, id@, true, true, 0);
        }
        self.content.get_comp_by_id_mut(id)
    }

    /// Gives every position of the tree its identifier, the path of child
    /// indices from the root (the root's is empty), with empty records. An
    /// error where a branch has more than 256 children, whose indices do not
    /// fit in a byte.
    pub fn init_nodes(&mut self) -> (r: Result<&mut Self, Error>)
        ensures
            r is Err <==> old(self).init_state != CircuitInitState::Source && !old(self).content.fits(),
            r is Err ==> r->Err_0.is_build() && *final(self) == *old(self),
            r is Ok ==> *final(self) == *final(r->Ok_0),
            r is Ok && old(self).init_state == CircuitInitState::Source ==> *r->Ok_0 == *old(self),
            r is Ok && old(self).init_state != CircuitInitState::Source ==> {
                &&& r->Ok_0.init_state == CircuitInitState::CircuitNodes
                &&& r->Ok_0.content.ids_from(Seq::empty())
                &&& r->Ok_0.content.agrees(old(self).content, false, true, 1)
                &&& r->Ok_0.records_aligned()
                &&& r->Ok_0.lines_recorded() == 0
                &&& r->Ok_0.source == old(self).source
            },
    {
        if self.init_state.level() >= 2 {
            return Ok(self);
        }
        if !self.content.check_fits() {
            return Err(Error::CircuitBuild(String::from_str("a branch has more than 256 children")));
        }
        self.build_nodes();
        Ok(self)
    }

    /// Drops the records and gives every position its identifier.
    fn build_nodes(&mut self)
        requires
            old(self).content.fits(),
        ensures
            final(self).init_state == CircuitInitState::CircuitNodes,
            final(self).content.ids_from(Seq::empty()),
            final(self).content.agrees(old(self).content, false, true, 1),
            final(self).records_aligned(),
            final(self).lines_recorded() == 0,
            final(self).source == old(self).source,
    {
        self.content.uninit_current_tension_potential();
        let ghost cleared = self.content;
        proof {
            lemma_agrees_keeps_fits(self.content, old(self).content, true, true, 1);
        }
        self.content.assign_ids(Vec::new());
        self.init_state = CircuitInitState::CircuitNodes;
        proof {
            lemma_agrees_compose(self.content, cleared, old(self).content);
            lemma_cleared_records_are_aligned(self.content, old(self).content, false, true, 1);
        }
    }

    /// Sets the amplitude of the line at `index` of the source.
    pub fn set_voltage(&mut self, index: usize, voltage: A) -> (r: &mut Self)
        requires
            index < old(self).source.voltages.len(),
        ensures
            *final(self) == *final(r),
            r.source.voltages@ == old(self).source.voltages@.update(
                index as int,
                (old(self).source.voltages@[index as int].0, voltage),
            ),
            r.init_state.rank() <= 1,
            r.content.agrees(old(self).content, true, true, 1),
            r.records_aligned() && r.lines_recorded() == 0,
    {
        self.source.set_voltage(index, voltage);
        assert(self.source.voltages@ =~= old(self).source.voltages@.update(
            index as int,
            (old(self).source.voltages@[index as int].0, voltage),
        ));
        self.uninit_source()
    }

    /// Removes the line at `index` of the source.
    pub fn remove_pulse(&mut self, index: usize) -> (r: &mut Self)
        requires
            index < old(self).source.voltages.len(),
        ensures
            *final(self) == *final(r),
            r.source.voltages@ == old(self).source.voltages@.remove(index as int),
            r.init_state.rank() <= 1,
            r.content.agrees(old(self).content, true, true, 1),
            r.records_aligned() && r.lines_recorded() == 0,
    {
        self.source.remove_pulse(index);
        self.uninit_source()
    }

    /// Removes every line of the source.
    pub fn clear_source(&mut self) -> (r: &mut Self)
        ensures
            *final(self) == *final(r),
            r.source.voltages@.len() == 0,
            r.init_state.rank() <= 1,
            r.content.agrees(old(self).content, true, true, 1),
            r.records_aligned() && r.lines_recorded() == 0,
    {
        self.source.clear();
        self.uninit_source()
    }

    /// The lines of the source, in increasing order of pulse.
    pub fn voltages(&self) -> (r: &Vec<(P, A)>)
        ensures
            r == &self.source.voltages,
    {
        self.source.voltages()
    }
}

impl<V, Z, P: Pulse, A> Circuit<V, Z, P, A> {
    /// Adds the line (`pulse`, `voltage`) to the source, at its place in the
    /// order of pulses; where a line of the same pulse is there, its
    /// amplitude becomes `voltage`.
    pub fn add_pulse(&mut self, pulse: P, voltage: A) -> (r: &mut Self)
        ensures
            *final(self) == *final(r),
            r.source.voltages@ == Source::<P, A>::added(old(self).source.voltages@, pulse, voltage),
            Source::<P, A>::pulses_increase(old(self).source.voltages@) && Source::<P, A>::pulses_ordered()
                ==> Source::<P, A>::pulses_increase(r.source.voltages@),
            r.init_state.rank() <= 1,
            r.content.agrees(old(self).content, true, true, 1),
            r.records_aligned() && r.lines_recorded() == 0,
    {
        self.source.add_pulse(pulse, voltage);
        self.uninit_source()
    }
}

impl<V, Z: RationalImpedance<V> + Evaluate<P, A>, P: Pulse, A: Phasor> Circuit<V, Z, P, A> {
    /// Prepares the circuit for emulation: builds the identifiers with empty
    /// records, computes the impedances, then hands every line of the source
    /// down the tree, in order; the root records each line of non-zero
    /// amplitude. Stops at the first error: an uninitialised element, a branch
    /// of more than 256 children, or the first line that cannot be handed
    /// down. The lines handed down before stay recorded, the tree keeps its
    /// shape and impedances, and the circuit does not reach the level
    /// `Source`.
    ///
    /// In the contract, `m` is the tree as the identifiers leave it and `t`
    /// the tree with its impedances computed from `m`: whether a line can be
    /// handed down, and what is recorded, is decided on `t`.
    pub fn init(&mut self) -> (r: Result<&mut Self, Error>)
        ensures
            r is Ok ==> *final(self) == *final(r->Ok_0),
            r is Ok ==> r->Ok_0.init_state == CircuitInitState::Source,
            r is Err ==> final(self).init_state.rank() < 2,
            old(self).init_state == CircuitInitState::Source ==> r is Ok && *r->Ok_0 == *old(self),
            old(self).init_state != CircuitInitState::Source && !old(self).content.fits() ==> (r is Err
                && r->Err_0.is_build()),
            old(self).init_state != CircuitInitState::Source && old(self).content.fits()
                && old(self).content.impedance_blocked() ==> (r is Err && r->Err_0.is_build()),
            r is Ok ==> r->Ok_0.source == old(self).source,
            r is Err ==> final(self).source == old(self).source,
            old(self).source.voltages.len() == 0 && old(self).content.fits()
                && !old(self).content.impedance_blocked() ==> r is Ok,
            r is Ok && old(self).init_state != CircuitInitState::Source ==> {
                &&& r->Ok_0.records_aligned()
                &&& r->Ok_0.content.impedance is Some
                &&& r->Ok_0.content.node.currents@ == root_currents(
                    old(self).source.voltages@,
                    r->Ok_0.content.impedance->Some_0,
                )
                &&& r->Ok_0.content.node.next_component_tensions@ == root_tensions(
                    old(self).source.voltages@,
                )
                &&& r->Ok_0.content.node.potentials@ == root_tensions(old(self).source.voltages@)
            },
            forall|m: Component<V, Z, A>, t: Component<V, Z, A>|
                #![trigger m.agrees(old(self).content, false, true, 1), t.computed_from(m)]
                old(self).init_state != CircuitInitState::Source && old(self).content.fits()
                    && !old(self).content.impedance_blocked() && m.agrees(old(self).content, false, true, 1)
                    && m.ids_from(Seq::empty()) && t.computed_from(m) ==> {
                    let lines = old(self).source.voltages@;
                    let k = first_faulty_line(t, lines, 0);
                    &&& r is Ok <==> k == lines.len()
                    &&& r is Ok ==> r->Ok_0.content.alike(t)
                    &&& r is Err ==> reports(r->Err_0, t.line_fault(lines[k].0, lines[k].1)->Some_0)
                    &&& r is Err ==> final(self).content.keeps_impedances(t)
                    &&& r is Err ==> final(self).content.node.currents@ == root_currents(
                        lines.subrange(0, k),
                        t.impedance->Some_0,
                    )
                    &&& r is Err ==> final(self).content.node.next_component_tensions@ == root_tensions(
                        lines.subrange(0, k),
                    )
                    &&& r is Err ==> final(self).content.node.potentials@ == root_tensions(
                        lines.subrange(0, k),
                    )
                },
    {
        if self.init_state.level() >= 2 {
            return Ok(self);
        }
        if !self.content.check_fits() {
            return Err(Error::CircuitBuild(String::from_str("a branch has more than 256 children")));
        }
        self.build_nodes();
        let ghost lines = self.source.voltages@;
        let ghost built = self.content;
        proof {
            lemma_blocked_ignores_ids(self.content, old(self).content, false, 1);
        }
        match self.content.init_impedance() {
            Ok(_) => {},
            Err(e) => {
                return Err(e);
            },
        }
        let ghost computed = self.content;
        proof {
            lemma_kept_records_stay_aligned(self.content, built, 0);
            // Every tree the contract speaks of is alike to the one computed.
            assert forall|m: Component<V, Z, A>, t: Component<V, Z, A>|
                #![trigger m.agrees(old(self).content, false, true, 1), t.computed_from(m)]
                m.agrees(old(self).content, false, true, 1) && m.ids_from(Seq::empty()) && t.computed_from(m)
                    implies computed.alike(t) && t.alike(computed) && first_faulty_line(t, lines, 0)
                    == first_faulty_line(computed, lines, 0) by {
                lemma_built_alike(built, m, old(self).content, Seq::empty());
                lemma_built_alike(m, built, old(self).content, Seq::empty());
                lemma_computed_alike(computed, built, t, m);
                lemma_computed_alike(t, m, computed, built);
                lemma_first_faulty_follows(t, computed, lines, 0);
            }
        }
        let ghost z = self.content.impedance->Some_0;
        let ghost mut done: nat = 0;
        let n = self.source.voltages.len();
        let mut k: usize = 0;
        assert(self.source.voltages@.subrange(0, 0) =~= Seq::<(P, A)>::empty());
        assert(self.content.node.currents@ =~= Seq::<A>::empty());
        assert(self.content.node.next_component_tensions@ =~= Seq::<A>::empty());
        assert(self.content.node.potentials@ =~= Seq::<A>::empty());
        proof {
            lemma_alike_refl(computed);
        }
        while k < n
            invariant
                n == self.source.voltages.len(),
                self.source == old(self).source,
                lines == self.source.voltages@,
                self.init_state == CircuitInitState::CircuitNodes,
                k <= n,
                done <= k,
                self.lines_recorded() == done,
                self.content.aligned(done),
                self.content.impedance == Some(z),
                computed.impedance == Some(z),
                self.content.alike(computed),
                first_faulty_line(computed, lines, 0) == first_faulty_line(computed, lines, k as int),
                old(self).init_state != CircuitInitState::Source,
                old(self).content.fits(),
                !old(self).content.impedance_blocked(),
                forall|m: Component<V, Z, A>, t: Component<V, Z, A>|
                    #![trigger m.agrees(old(self).content, false, true, 1), t.computed_from(m)]
                    m.agrees(old(self).content, false, true, 1) && m.ids_from(Seq::empty())
                        && t.computed_from(m) ==> computed.alike(t) && t.alike(computed) && first_faulty_line(
                        t,
                        lines,
                        0,
                    ) == first_faulty_line(computed, lines, 0),
                self.content.node.currents@ == root_currents(lines.subrange(0, k as int), z),
                self.content.node.next_component_tensions@ == root_tensions(lines.subrange(0, k as int)),
                self.content.node.potentials@ == root_tensions(lines.subrange(0, k as int)),
            decreases n - k,
        {
            let line = &self.source.voltages[k];
            let ghost prev = self.content;
            proof {
                lemma_line_fault_follows(prev, computed, lines[k as int].0, lines[k as int].1);
            }
            match self.content.solve_line(&line.0, &line.1) {
                Ok(()) => {},
                Err(e) => {
                    proof {
                        assert(first_faulty_line(computed, lines, k as int) == k);
                        lemma_keeps_impedances_of_alike(self.content, prev, computed);
                        assert forall|m: Component<V, Z, A>, t: Component<V, Z, A>|
                            #![trigger m.agrees(old(self).content, false, true, 1), t.computed_from(m)]
                            m.agrees(old(self).content, false, true, 1) && m.ids_from(Seq::empty())
                                && t.computed_from(m) implies self.content.keeps_impedances(t)
                                && t.line_fault(lines[k as int].0, lines[k as int].1) == computed.line_fault(
                                lines[k as int].0,
                                lines[k as int].1,
                            ) by {
                            lemma_keeps_impedances_of_alike(self.content, computed, t);
                            lemma_line_fault_follows(t, computed, lines[k as int].0, lines[k as int].1);
                        }
                    }
                    return Err(e);
                },
            }
            proof {
                let next = lines.subrange(0, k + 1);
                assert(next.drop_last() =~= lines.subrange(0, k as int));
                assert(next.last() == lines[k as int]);
                if self.content != prev {
                    lemma_one_more_line_aligned(self.content, prev, done);
                    done = done + 1;
                    lemma_handed_down_alike(
                        self.content,
                        prev,
                        prev.line_current(lines[k as int].0, lines[k as int].1),
                        lines[k as int].1,
                        lines[k as int].1,
                        lines[k as int].0,
                    );
                    lemma_alike_trans(self.content, prev, computed);
                }
                assert(self.content.node.currents@ =~= root_currents(next, z));
                assert(self.content.node.next_component_tensions@ =~= root_tensions(next));
                assert(self.content.node.potentials@ =~= root_tensions(next));
            }
            k += 1;
        }
        assert(lines.subrange(0, n as int) =~= lines);
        proof {
            assert forall|m: Component<V, Z, A>, t: Component<V, Z, A>|
                #![trigger m.agrees(old(self).content, false, true, 1), t.computed_from(m)]
                m.agrees(old(self).content, false, true, 1) && m.ids_from(Seq::empty()) && t.computed_from(m)
                    implies self.content.alike(t) by {
                lemma_alike_trans(self.content, computed, t);
            }
        }
        self.init_state = CircuitInitState::Source;
        Ok(self)
    }
}

/// The index of the first line of `lines`, from `k` on, that cannot be
/// handed down the tree `t`; the number of lines where every one can.
pub open spec fn first_faulty_line<V, Z: RationalImpedance<V> + Evaluate<P, A>, P: Pulse, A: Phasor>(
    t: Component<V, Z, A>,
    lines: Seq<(P, A)>,
    k: int,
) -> int
    decreases lines.len() - k,
{
    if k < 0 || k >= lines.len() {
        lines.len() as int
    } else if t.line_fault(lines[k].0, lines[k].1) is Some {
        k
    } else {
        first_faulty_line(t, lines, k + 1)
    }
}

/// Two trees alike stop at the same line.
pub proof fn lemma_first_faulty_follows<V, Z: RationalImpedance<V> + Evaluate<P, A>, P: Pulse, A: Phasor>(
    a: Component<V, Z, A>,
    b: Component<V, Z, A>,
    lines: Seq<(P, A)>,
    k: int,
)
    requires
        a.alike(b),
    ensures
        first_faulty_line(a, lines, k) == first_faulty_line(b, lines, k),
    decreases lines.len() - k,
{
    if 0 <= k < lines.len() {
        lemma_line_fault_follows(a, b, lines[k].0, lines[k].1);
        lemma_first_faulty_follows(a, b, lines, k + 1);
    }
}

/// Identifiers play no part in whether the impedance can be computed.
proof fn lemma_blocked_ignores_ids<V, Z, A>(
    a: Component<V, Z, A>,
    b: Component<V, Z, A>,
    keep_ids: bool,
    level_cap: nat,
)
    requires
        a.agrees(b, keep_ids, true, level_cap),
        level_cap >= 1,
    ensures
        a.impedance_blocked() <==> b.impedance_blocked(),
    decreases a,
{
    assert forall|i: int| 0 <= i < a.children().len() implies (#[trigger] a.children()[i]).impedance_blocked()
        <==> b.children()[i].impedance_blocked() by {
        match a.content {
            ComponentContent::Series(cs) => {
                assert(decreases_to!(cs => cs[i]));
                lemma_blocked_ignores_ids(cs[i], b.children()[i], keep_ids, level_cap);
            },
            ComponentContent::Parallel(cs) => {
                assert(decreases_to!(cs => cs[i]));
                lemma_blocked_ignores_ids(cs[i], b.children()[i], keep_ids, level_cap);
            },
            _ => {},
        }
    }
    if exists|i: int| 0 <= i < b.children().len() && (#[trigger] b.children()[i]).impedance_blocked() {
        let i = choose|i: int| 0 <= i < b.children().len() && (#[trigger] b.children()[i]).impedance_blocked();
        assert(a.children()[i].impedance_blocked());
    }
}

} // verus!
