//! The tree of components: series and parallel branches over elementary
//! dipoles, with the memoised impedance and the identifier of each position.
use vstd::prelude::*;
use crate::algebra::RationalImpedance;
use crate::dipole::Dipole;
use crate::error::Error;
use crate::node::Node;
use crate::state::ComponentInitState;

verus! {

/// What a component is made of.
#[derive(Debug)]
pub enum ComponentContent<V, Z, A> {
    /// Components side by side: they share the tension.
    Parallel(Vec<Component<V, Z, A>>),
    /// Components one after the other: they share the current.
    Series(Vec<Component<V, Z, A>>),
    /// A single dipole.
    Simple(Dipole<V, Z>),
    /// The content of an empty tree.
    Poisoned,
}

/// A node of the tree of components.
#[derive(Debug)]
pub struct Component<V, Z, A> {
    /// What the component is made of.
    pub content: ComponentContent<V, Z, A>,
    /// The impedance, once computed.
    pub impedance: Option<Z>,
    /// The current, tension and potential recorded at each spectral line.
    pub node: Node<A>,
    /// The path of child indices from the root to this component.
    pub fore_node_id: Vec<u8>,
    /// How far the analysis of the component has gone.
    pub init_state: ComponentInitState,
}

impl<V, Z, A> ComponentContent<V, Z, A> {
    /// The children of a branch; empty for a leaf.
    pub open spec fn children(self) -> Seq<Component<V, Z, A>> {
        match self {
            ComponentContent::Parallel(cs) => cs@,
            ComponentContent::Series(cs) => cs@,
            _ => Seq::empty(),
        }
    }

    /// Whether the content is a series or a parallel branch.
    pub open spec fn is_branch(self) -> bool {
        self is Parallel || self is Series
    }
}

impl<V, Z, A> Component<V, Z, A> {
    /// The children of the component; empty for a leaf.
    pub open spec fn children(self) -> Seq<Component<V, Z, A>> {
        self.content.children()
    }

    /// Whether nothing is computed for the component and its identifier is
    /// `id`.
    pub open spec fn is_reset(self, id: Seq<u8>) -> bool {
        &&& self.impedance is None
        &&& self.fore_node_id@ == id
        &&& self.init_state == ComponentInitState::Uninitialized
    }

    /// Whether every branch has at most 256 children, so that the index of a
    /// child fits in a byte of its identifier.
    pub open spec fn fits(self) -> bool
        decreases self,
    {
        match self.content {
            ComponentContent::Series(cs) => {
                &&& cs.len() <= 256
                &&& forall|i: int| 0 <= i < cs.len() ==> (#[trigger] cs@[i]).fits()
            },
            ComponentContent::Parallel(cs) => {
                &&& cs.len() <= 256
                &&& forall|i: int| 0 <= i < cs.len() ==> (#[trigger] cs@[i]).fits()
            },
            _ => true,
        }
    }

    /// Whether the identifier of every component below this one is its path
    /// from here, prefixed by `prefix`.
    pub open spec fn ids_from(self, prefix: Seq<u8>) -> bool
        decreases self,
    {
        &&& self.fore_node_id@ == prefix
        &&& forall|i: int|
            0 <= i < self.children().len() ==> (#[trigger] self.children()[i]).ids_from(prefix.push(i as u8))
    }

    /// Whether `self` has the shape and the dipoles of `other`, at every
    /// position: with the same identifiers where `keep_ids`, the same
    /// impedances where `keep_impedance`, and at each position the lower of
    /// `other`'s level and `level_cap`. Below the level of currents, nothing
    /// is recorded.
    pub open spec fn agrees(
        self,
        other: Self,
        keep_ids: bool,
        keep_impedance: bool,
        level_cap: nat,
    ) -> bool
        decreases self,
    {
        &&& keep_ids ==> self.fore_node_id@ == other.fore_node_id@
        &&& keep_impedance ==> self.impedance == other.impedance
        &&& level_cap >= 2 ==> self.node == other.node
        &&& level_cap < 2 ==> self.node.aligned(0)
        &&& self.init_state.rank() == if other.init_state.rank() < level_cap {
            other.init_state.rank()
        } else {
            level_cap
        }
        &&& match (self.content, other.content) {
            (ComponentContent::Series(_), ComponentContent::Series(_)) => true,
            (ComponentContent::Parallel(_), ComponentContent::Parallel(_)) => true,
            (ComponentContent::Simple(d), ComponentContent::Simple(e)) => d == e,
            (ComponentContent::Poisoned, ComponentContent::Poisoned) => true,
            _ => false,
        }
        &&& self.children().len() == other.children().len()
        &&& forall|i: int|
            0 <= i < self.children().len() ==> (#[trigger] self.children()[i]).agrees(
                other.children()[i],
                keep_ids,
                keep_impedance,
                level_cap,
            )
    }

    /// Whether `self` has the shape, the dipoles, the identifiers and the
    /// records of `other`, at every position.
    pub open spec fn keeps_records(self, other: Self) -> bool
        decreases self,
    {
        &&& self.fore_node_id@ == other.fore_node_id@
        &&& self.node == other.node
        &&& match (self.content, other.content) {
            (ComponentContent::Series(_), ComponentContent::Series(_)) => true,
            (ComponentContent::Parallel(_), ComponentContent::Parallel(_)) => true,
            (ComponentContent::Simple(d), ComponentContent::Simple(e)) => d == e,
            (ComponentContent::Poisoned, ComponentContent::Poisoned) => true,
            _ => false,
        }
        &&& self.children().len() == other.children().len()
        &&& forall|i: int|
            0 <= i < self.children().len() ==> (#[trigger] self.children()[i]).keeps_records(
                other.children()[i],
            )
    }

    /// Whether the impedance of the component is computed.
    pub open spec fn impedance_known(self) -> bool {
        self.init_state.rank() >= 1 && self.impedance is Some
    }

    /// Whether, at every position below this one whose impedance is known,
    /// the impedances of all positions below it are known too.
    pub open spec fn known_closed(self) -> bool
        decreases self,
    {
        &&& self.impedance_known() ==> self.all_known()
        &&& forall|i: int|
            0 <= i < self.children().len() ==> (#[trigger] self.children()[i]).known_closed()
    }

    /// Whether computing the impedance of this component meets an element
    /// that has none: an empty tree or an uninitialised dipole, in a part of
    /// the tree whose impedance is not computed yet.
    pub open spec fn impedance_blocked(self) -> bool
        decreases self,
    {
        &&& !self.impedance_known()
        &&& match self.content {
            ComponentContent::Poisoned => true,
            ComponentContent::Simple(d) => d is Poisoned,
            _ => exists|i: int|
                0 <= i < self.children().len() && (#[trigger] self.children()[i]).impedance_blocked(),
        }
    }

    /// Whether every position below this one has recorded `n` lines.
    pub open spec fn aligned(self, n: nat) -> bool
        decreases self,
    {
        &&& self.node.aligned(n)
        &&& forall|i: int| 0 <= i < self.children().len() ==> (#[trigger] self.children()[i]).aligned(n)
    }

    /// The component at path `id` below this one, if there is one.
    pub open spec fn lookup(self, id: Seq<u8>) -> Option<Component<V, Z, A>>
        decreases id.len(),
    {
        if id.len() == 0 {
            Some(self)
        } else if (id[0] as int) < self.children().len() {
            self.children()[id[0] as int].lookup(id.drop_first())
        } else {
            None
        }
    }
}

impl<V, Z, A> Component<V, Z, A> {
    /// An empty tree: a placeholder that becomes what is first pushed onto it.
    pub fn new() -> (r: Self)
        ensures
            r.content is Poisoned,
            r.is_reset(Seq::empty()),
            r.node.aligned(0),
    {
        Component {
            content: ComponentContent::Poisoned,
            impedance: None,
            node: Node::new(),
            fore_node_id: Vec::new(),
            init_state: ComponentInitState::Uninitialized,
        }
    }

    /// Pushes `component` after `self` in series.
    ///
    /// An empty tree takes the content of `component`, with nothing computed;
    /// a series branch gets `component` as
    /// its last child; anything else becomes a series branch of two children,
    /// the former `self` and `component`.
    pub fn push_serie(&mut self, component: Self) -> (r: &mut Self)
        ensures
            *final(self) == *final(r),
            old(self).content is Poisoned ==> {
                &&& r.content == component.content
                &&& r.is_reset(old(self).fore_node_id@)
                &&& r.node.aligned(0)
            },
            old(self).content is Series ==> {
                &&& r.content is Series
                &&& r.is_reset(old(self).fore_node_id@)
                &&& r.node == old(self).node
                &&& r.children() == old(self).children().push(component)
            },
            !(old(self).content is Poisoned) && !(old(self).content is Series) ==> {
                &&& r.content is Series
                &&& r.is_reset(old(self).fore_node_id@)
                &&& r.node.aligned(0)
                &&& r.children() == seq![*old(self), component]
            },
    {
        match &mut self.content {
            ComponentContent::Poisoned => {
                self.content = component.content;
                self.impedance = None;
                self.init_state = ComponentInitState::Uninitialized;
                self.node.clear();
            },
            ComponentContent::Series(cs) => {
                cs.push(component);
                self.impedance = None;
                self.init_state = ComponentInitState::Uninitialized;
            },
            _ => {
                let id = self.fore_node_id.clone();
                let mut former = Component::new();
                std::mem::swap(self, &mut former);
                let mut cs: Vec<Self> = Vec::new();
                cs.push(former);
                cs.push(component);
                self.content = ComponentContent::Series(cs);
                self.fore_node_id = id;
            },
        }
        self
    }

    /// Pushes `component` beside `self` in parallel.
    ///
    /// An empty tree takes the content of `component`, with nothing computed;
    /// a parallel branch gets `component` as
    /// its last child; anything else becomes a parallel branch of two children,
    /// the former `self` and `component`.
    pub fn push_parallel(&mut self, component: Self) -> (r: &mut Self)
        ensures
            *final(self) == *final(r),
            old(self).content is Poisoned ==> {
                &&& r.content == component.content
                &&& r.is_reset(old(self).fore_node_id@)
                &&& r.node.aligned(0)
            },
            old(self).content is Parallel ==> {
                &&& r.content is Parallel
                &&& r.is_reset(old(self).fore_node_id@)
                &&& r.node == old(self).node
                &&& r.children() == old(self).children().push(component)
            },
            !(old(self).content is Poisoned) && !(old(self).content is Parallel) ==> {
                &&& r.content is Parallel
                &&& r.is_reset(old(self).fore_node_id@)
                &&& r.node.aligned(0)
                &&& r.children() == seq![*old(self), component]
            },
    {
        match &mut self.content {
            ComponentContent::Poisoned => {
                self.content = component.content;
                self.impedance = None;
                self.init_state = ComponentInitState::Uninitialized;
                self.node.clear();
            },
            ComponentContent::Parallel(cs) => {
                cs.push(component);
                self.impedance = None;
                self.init_state = ComponentInitState::Uninitialized;
            },
            _ => {
                let id = self.fore_node_id.clone();
                let mut former = Component::new();
                std::mem::swap(self, &mut former);
                let mut cs: Vec<Self> = Vec::new();
                cs.push(former);
                cs.push(component);
                self.content = ComponentContent::Parallel(cs);
                self.fore_node_id = id;
            },
        }
        self
    }

    /// Exchanges the children at `index1` and `index2` of a branch; an error
    /// for a leaf.
    pub fn swap(&mut self, index1: usize, index2: usize) -> (r: Result<&mut Self, Error>)
        requires
            old(self).content.is_branch() ==> index1 < old(self).children().len()
                && index2 < old(self).children().len(),
        ensures
            r is Err <==> !old(self).content.is_branch(),
            r is Err ==> r->Err_0.is_build() && *final(self) == *old(self),
            r is Ok ==> *final(self) == *final(r->Ok_0),
            r is Ok ==> {
                &&& r->Ok_0.content is Series <==> old(self).content is Series
                &&& r->Ok_0.content.is_branch()
                &&& r->Ok_0.children() == old(self).children().update(
                    index1 as int,
                    old(self).children()[index2 as int],
                ).update(index2 as int, old(self).children()[index1 as int])
                &&& r->Ok_0.impedance == old(self).impedance
                &&& r->Ok_0.fore_node_id == old(self).fore_node_id
                &&& r->Ok_0.init_state == old(self).init_state
            },
    {
        match &mut self.content {
            ComponentContent::Series(cs) => swap_entries(cs, index1, index2),
            ComponentContent::Parallel(cs) => swap_entries(cs, index1, index2),
            _ => {
                return Err(Error::CircuitBuild(String::from_str("swap in a component that is not a branch")));
            },
        }
        Ok(self)
    }

    /// The component at path `id` below this one, if there is one.
    pub fn get_comp_by_id(&self, id: &[u8]) -> (r: Option<&Self>)
        ensures
            r is Some <==> self.lookup(id@) is Some,
            r is Some ==> *r->Some_0 == self.lookup(id@)->Some_0,
        decreases id@.len(),
    {
        if id.len() == 0 {
            return Some(self);
        }
        let k = id[0] as usize;
        let rest = &id[1..id.len()];
        assert(rest@ == id@.drop_first());
        match &self.content {
            ComponentContent::Series(cs) => {
                if k < cs.len() {
                    cs[k].get_comp_by_id(rest)
                } else {
                    None
                }
            },
            ComponentContent::Parallel(cs) => {
                if k < cs.len() {
                    cs[k].get_comp_by_id(rest)
                } else {
                    None
                }
            },
            _ => None,
        }
    }
}

impl<V, Z, A> Component<V, Z, A> {
    /// Gives every component below this one its path from here, prefixed by
    /// `prefix`, as identifier.
    pub fn assign_ids(&mut self, prefix: Vec<u8>)
        requires
            old(self).fits(),
        ensures
            final(self).ids_from(prefix@),
            final(self).fits(),
            final(self).agrees(*old(self), false, true, 2),
        decreases *old(self),
    {
        self.fore_node_id = prefix;
        match &mut self.content {
            ComponentContent::Series(cs) => assign_children_ids(cs, &self.fore_node_id),
            ComponentContent::Parallel(cs) => assign_children_ids(cs, &self.fore_node_id),
            _ => {},
        }
    }

    /// Lowers every level of the tree below this one to `Uninitialized`, and
    /// drops what was recorded.
    pub fn uninit_all(&mut self) -> (r: &mut Self)
        ensures
            *final(self) == *final(r),
            r.agrees(*old(self), true, true, 0),
    {
        self.lower_levels(0);
        self
    }

    /// Drops the currents, tensions and potentials, in the whole tree below
    /// this one; impedances stay.
    pub fn uninit_current_tension_potential(&mut self) -> (r: &mut Self)
        ensures
            *final(self) == *final(r),
            r.agrees(*old(self), true, true, 1),
    {
        self.lower_levels(1);
        self
    }

    /// Lowers the level of every component below this one to at most `cap`.
    fn lower_levels(&mut self, cap: u8)
        requires
            cap <= 2,
        ensures
            final(self).agrees(*old(self), true, true, cap as nat),
        decreases *old(self),
    {
        if self.init_state.level() > cap {
            self.init_state = if cap == 0 {
                ComponentInitState::Uninitialized
            } else if cap == 1 {
                ComponentInitState::Impedance
            } else {
                ComponentInitState::CurrentTensionPotential
            };
        }
        if cap < 2 {
            self.node.clear();
        }
        match &mut self.content {
            ComponentContent::Series(cs) => lower_children(cs, cap),
            ComponentContent::Parallel(cs) => lower_children(cs, cap),
            _ => {},
        }
    }
}

/// The sum of the impedances of `cs`, or of their inverses where
/// `inverted`, added in order to zero.
pub open spec fn impedance_sum<V, Z: RationalImpedance<V>, A>(
    cs: Seq<Component<V, Z, A>>,
    inverted: bool,
) -> Z
    decreases cs.len(),
{
    if cs.len() == 0 {
        Z::spec_zero()
    } else {
        let z = cs.last().impedance->Some_0;
        impedance_sum(cs.drop_last(), inverted).spec_add(if inverted { z.spec_invert() } else { z })
    }
}

impl<V, Z: RationalImpedance<V>, A> Component<V, Z, A> {
    /// The impedance of the component made from those of its children: the
    /// reduced sum of their impedances for a series branch, the reduced
    /// inverse of the sum of their inverses for a parallel branch, the
    /// impedance of the dipole of a leaf.
    pub open spec fn composed(self) -> Z {
        match self.content {
            ComponentContent::Series(cs) => impedance_sum(cs@, false).spec_reduce(),
            ComponentContent::Parallel(cs) => impedance_sum(cs@, true).spec_invert().spec_reduce(),
            ComponentContent::Simple(d) => d.spec_impedance(),
            ComponentContent::Poisoned => Z::spec_zero(),
        }
    }

    /// Whether `self` is `other` with the impedance computed at every
    /// position where it was not known: such a position gets
    /// [`Component::composed`] from its children's impedances and the level
    /// `Impedance`; a position whose impedance was known stays as it was,
    /// with all below it.
    pub open spec fn computed_from(self, other: Self) -> bool
        decreases self,
    {
        if other.impedance_known() {
            self == other
        } else {
            &&& self.impedance == Some(self.composed())
            &&& self.init_state == ComponentInitState::Impedance
            &&& self.fore_node_id@ == other.fore_node_id@
            &&& self.node == other.node
            &&& match (self.content, other.content) {
                (ComponentContent::Series(_), ComponentContent::Series(_)) => true,
                (ComponentContent::Parallel(_), ComponentContent::Parallel(_)) => true,
                (ComponentContent::Simple(d), ComponentContent::Simple(e)) => d == e,
                _ => false,
            }
            &&& self.children().len() == other.children().len()
            &&& forall|i: int|
                0 <= i < self.children().len() ==> (#[trigger] self.children()[i]).computed_from(
                    other.children()[i],
                )
        }
    }

    /// Computes the impedance of the component from those of its children:
    /// their sum for a series branch, the inverse of the sum of their inverses
    /// for a parallel branch, reduced. Nothing is done where the impedance is
    /// already computed. An error where an element has no impedance.
    pub fn init_impedance(&mut self) -> (r: Result<&mut Self, Error>)
        ensures
            r is Err <==> old(self).impedance_blocked(),
            r is Err ==> r->Err_0.is_build(),
            r is Ok ==> *final(self) == *final(r->Ok_0),
            r is Ok ==> r->Ok_0.impedance_known(),
            r is Ok ==> r->Ok_0.keeps_records(*old(self)),
            r is Ok ==> r->Ok_0.computed_from(*old(self)),
            r is Ok && old(self).known_closed() ==> r->Ok_0.all_known(),
            r is Err ==> final(self).keeps_records(*old(self)),
            r is Err ==> final(self).init_state == old(self).init_state && final(self).impedance
                == old(self).impedance,
            old(self).impedance_known() ==> r is Ok && *r->Ok_0 == *old(self),
    {
        match self.compute_impedance() {
            Ok(()) => Ok(self),
            Err(e) => Err(e),
        }
    }

    fn compute_impedance(&mut self) -> (r: Result<(), Error>)
        ensures
            r is Err <==> old(self).impedance_blocked(),
            r is Err ==> r->Err_0.is_build(),
            r is Ok ==> final(self).impedance_known(),
            r is Ok ==> final(self).computed_from(*old(self)),
            r is Ok && old(self).known_closed() ==> final(self).all_known(),
            r is Err ==> final(self).init_state == old(self).init_state && final(self).impedance
                == old(self).impedance,
            old(self).impedance_known() ==> *final(self) == *old(self),
            final(self).keeps_records(*old(self)),
        decreases *old(self),
    {
        if self.init_state.level() >= 1 && self.impedance.is_some() {
            proof {
                lemma_keeps_records_refl(*self);
            }
            return Ok(());
        }
        let z = match &mut self.content {
            ComponentContent::Series(cs) => {
                let ghost before = cs@;
                assert(before == old(self).children());
                match combine_children(cs, false) {
                    Ok(z) => z,
                    Err(e) => {
                        let ghost k = choose|k: int| 0 <= k < before.len() && (#[trigger] before[k]).impedance_blocked();
                        assert(old(self).children()[k].impedance_blocked());
                        return Err(e);
                    },
                }
            },
            ComponentContent::Parallel(cs) => {
                let ghost before = cs@;
                assert(before == old(self).children());
                match combine_children(cs, true) {
                    Ok(z) => z,
                    Err(e) => {
                        let ghost k = choose|k: int| 0 <= k < before.len() && (#[trigger] before[k]).impedance_blocked();
                        assert(old(self).children()[k].impedance_blocked());
                        return Err(e);
                    },
                }
            },
            ComponentContent::Simple(d) => match d.impedance() {
                Ok(z) => z,
                Err(e) => return Err(e),
            },
            ComponentContent::Poisoned => {
                return Err(
                    Error::CircuitBuild(String::from_str("impedance of an uninitialized component")),
                );
            },
        };
        self.impedance = Some(z);
        self.init_state = ComponentInitState::Impedance;
        assert(self.children() == final(self).children());
        proof {
            if old(self).known_closed() {
                assert forall|i: int| 0 <= i < self.children().len() implies (#[trigger] self.children()[i]).all_known() by {
                    assert(old(self).children()[i].known_closed());
                }
            }
        }
        Ok(())
    }
}

/// Computes the impedance of every child, then adds them up (their inverses
/// where `inverted`, and inverts the sum) and reduces the result.
fn combine_children<V, Z: RationalImpedance<V>, A>(
    cs: &mut Vec<Component<V, Z, A>>,
    inverted: bool,
) -> (r: Result<Z, Error>)
    ensures
        r is Err <==> exists|i: int|
            0 <= i < old(cs).len() && (#[trigger] old(cs)@[i]).impedance_blocked(),
        r is Err ==> r->Err_0.is_build(),
        final(cs).len() == old(cs).len(),
        forall|i: int| 0 <= i < final(cs).len() ==> (#[trigger] final(cs)@[i]).keeps_records(old(cs)@[i]),
        r is Ok ==> forall|i: int|
            0 <= i < final(cs).len() ==> (#[trigger] final(cs)@[i]).computed_from(old(cs)@[i]),
        r is Ok ==> forall|i: int|
            0 <= i < final(cs).len() ==> (#[trigger] final(cs)@[i]).impedance_known(),
        r is Ok ==> forall|i: int|
            0 <= i < final(cs).len() ==> (#[trigger] old(cs)@[i]).known_closed() ==> final(cs)@[i].all_known(),
        r is Ok && !inverted ==> r->Ok_0 == impedance_sum(final(cs)@, false).spec_reduce(),
        r is Ok && inverted ==> r->Ok_0 == impedance_sum(final(cs)@, true).spec_invert().spec_reduce(),
    decreases *old(cs),
{
    let n = cs.len();
    let mut acc = Z::zero();
    let mut i: usize = 0;
    assert(cs@.subrange(0, 0) =~= Seq::<Component<V, Z, A>>::empty());
    while i < n
        invariant
            n == old(cs).len(),
            cs.len() == n,
            forall|j: int| 0 <= j < i ==> !(#[trigger] old(cs)@[j]).impedance_blocked(),
            forall|j: int| 0 <= j < i ==> (#[trigger] cs@[j]).keeps_records(old(cs)@[j]),
            forall|j: int| 0 <= j < i ==> (#[trigger] cs@[j]).computed_from(old(cs)@[j]),
            forall|j: int| 0 <= j < i ==> (#[trigger] cs@[j]).impedance_known(),
            forall|j: int| 0 <= j < i ==> (#[trigger] old(cs)@[j]).known_closed() ==> cs@[j].all_known(),
            forall|j: int| i <= j < n ==> #[trigger] cs@[j] == old(cs)@[j],
            i <= n,
            acc == impedance_sum(cs@.subrange(0, i as int), inverted),
        decreases n - i,
    {
        assert(decreases_to!(*old(cs) => old(cs)[i as int]));
        let ghost start = cs@;
        if let Err(e) = cs[i].compute_impedance() {
            assert forall|j: int| i < j < n implies (#[trigger] cs@[j]).keeps_records(old(cs)@[j]) by {
                lemma_keeps_records_refl(old(cs)@[j]);
            }
            return Err(e);
        }
        let ghost prefix = cs@.subrange(0, i as int);
        match &cs[i].impedance {
            Some(z) => {
                if inverted {
                    let mut y = z.duplicate();
                    y.invert();
                    acc.add_assign(&y);
                } else {
                    acc.add_assign(z);
                }
            },
            None => {},
        }
        proof {
            let next = cs@.subrange(0, i + 1);
            assert(start.subrange(0, i as int) =~= prefix);
            assert(next.drop_last() =~= prefix);
            assert(next.last() == cs@[i as int]);
            let z = cs@[i as int].impedance->Some_0;
            assert(impedance_sum(next, inverted) == impedance_sum(prefix, inverted).spec_add(
                if inverted { z.spec_invert() } else { z },
            ));
        }
        i += 1;
    }
    assert(cs@.subrange(0, n as int) =~= cs@);
    if inverted {
        acc.invert();
    }
    acc.reduce();
    Ok(acc)
}

proof fn lemma_keeps_records_refl<V, Z, A>(c: Component<V, Z, A>)
    ensures
        c.keeps_records(c),
    decreases c,
{
    assert forall|i: int| 0 <= i < c.children().len() implies (#[trigger] c.children()[i]).keeps_records(
        c.children()[i],
    ) by {
        match c.content {
            ComponentContent::Series(cs) => {
                assert(decreases_to!(cs => cs[i]));
                lemma_keeps_records_refl(cs[i]);
            },
            ComponentContent::Parallel(cs) => {
                assert(decreases_to!(cs => cs[i]));
                lemma_keeps_records_refl(cs[i]);
            },
            _ => {},
        }
    }
}

fn assign_children_ids<V, Z, A>(cs: &mut Vec<Component<V, Z, A>>, prefix: &Vec<u8>)
    requires
        old(cs).len() <= 256,
        forall|i: int| 0 <= i < old(cs).len() ==> (#[trigger] old(cs)@[i]).fits(),
    ensures
        final(cs).len() == old(cs).len(),
        forall|i: int|
            0 <= i < final(cs).len() ==> {
                &&& (#[trigger] final(cs)@[i]).ids_from(prefix@.push(i as u8))
                &&& final(cs)@[i].fits()
                &&& final(cs)@[i].agrees(old(cs)@[i], false, true, 2)
            },
    decreases *old(cs),
{
    let n = cs.len();
    let mut i: usize = 0;
    while i < n
        invariant
            n == old(cs).len(),
            cs.len() == n,
            n <= 256,
            forall|j: int|
                0 <= j < i ==> {
                    &&& (#[trigger] cs@[j]).ids_from(prefix@.push(j as u8))
                    &&& cs@[j].fits()
                    &&& cs@[j].agrees(old(cs)@[j], false, true, 2)
                },
            forall|j: int| i <= j < n ==> #[trigger] cs@[j] == old(cs)@[j],
            forall|i: int| 0 <= i < old(cs).len() ==> (#[trigger] old(cs)@[i]).fits(),
        decreases n - i,
    {
        let mut id = prefix.clone();
        id.push(i as u8);
        assert(id@ == prefix@.push(i as u8));
        assert(decreases_to!(*old(cs) => old(cs)[i as int]));
        cs[i].assign_ids(id);
        i += 1;
    }
}

fn lower_children<V, Z, A>(cs: &mut Vec<Component<V, Z, A>>, cap: u8)
    requires
        cap <= 2,
    ensures
        final(cs).len() == old(cs).len(),
        forall|i: int|
            0 <= i < final(cs).len() ==> (#[trigger] final(cs)@[i]).agrees(old(cs)@[i], true, true, cap as nat),
    decreases *old(cs),
{
    let n = cs.len();
    let mut i: usize = 0;
    while i < n
        invariant
            n == old(cs).len(),
            cs.len() == n,
            cap <= 2,
            forall|j: int| 0 <= j < i ==> (#[trigger] cs@[j]).agrees(old(cs)@[j], true, true, cap as nat),
            forall|j: int| i <= j < n ==> #[trigger] cs@[j] == old(cs)@[j],
        decreases n - i,
    {
        assert(decreases_to!(*old(cs) => old(cs)[i as int]));
        cs[i].lower_levels(cap);
        i += 1;
    }
}

impl<V, Z, A> Component<V, Z, A> {
    /// Whether every branch has at most 256 children.
    pub fn check_fits(&self) -> (r: bool)
        ensures
            r == self.fits(),
        decreases *self,
    {
        let cs = match &self.content {
            ComponentContent::Series(cs) => cs,
            ComponentContent::Parallel(cs) => cs,
            _ => {
                return true;
            },
        };
        if cs.len() > 256 {
            return false;
        }
        let mut i: usize = 0;
        while i < cs.len()
            invariant
                i <= cs.len(),
                cs@ == self.children(),
                forall|j: int| 0 <= j < i ==> (#[trigger] cs@[j]).fits(),
            decreases cs.len() - i,
        {
            assert(decreases_to!(*self => cs@[i as int]));
            if !cs[i].check_fits() {
                return false;
            }
            i += 1;
        }
        true
    }

    /// The component at path `id` below this one, if there is one, to be
    /// changed in place.
    pub fn get_comp_by_id_mut(&mut self, id: &[u8]) -> (r: Option<&mut Self>)
        ensures
            r is Some <==> old(self).lookup(id@) is Some,
            r is Some ==> *r->Some_0 == old(self).lookup(id@)->Some_0,
        decreases id@.len(),
    {
        if id.len() == 0 {
            return Some(self);
        }
        let k = id[0] as usize;
        let rest = &id[1..id.len()];
        assert(rest@ == id@.drop_first());
        match &mut self.content {
            ComponentContent::Series(cs) => {
                if k < cs.len() {
                    cs[k].get_comp_by_id_mut(rest)
                } else {
                    None
                }
            },
            ComponentContent::Parallel(cs) => {
                if k < cs.len() {
                    cs[k].get_comp_by_id_mut(rest)
                } else {
                    None
                }
            },
            _ => None,
        }
    }
}

/// Records kept as they are stay aligned.
pub proof fn lemma_kept_records_stay_aligned<V, Z, A>(
    a: Component<V, Z, A>,
    b: Component<V, Z, A>,
    n: nat,
)
    requires
        a.keeps_records(b),
        b.aligned(n),
    ensures
        a.aligned(n),
    decreases a,
{
    assert forall|i: int| 0 <= i < a.children().len() implies (#[trigger] a.children()[i]).aligned(n) by {
        match a.content {
            ComponentContent::Series(cs) => {
                assert(decreases_to!(cs => cs[i]));
                lemma_kept_records_stay_aligned(cs[i], b.children()[i], n);
            },
            ComponentContent::Parallel(cs) => {
                assert(decreases_to!(cs => cs[i]));
                lemma_kept_records_stay_aligned(cs[i], b.children()[i], n);
            },
            _ => {},
        }
    }
}

/// Whatever agrees with a tree, without its records, has none.
pub proof fn lemma_cleared_records_are_aligned<V, Z, A>(
    a: Component<V, Z, A>,
    b: Component<V, Z, A>,
    keep_ids: bool,
    keep_impedance: bool,
    level_cap: nat,
)
    requires
        a.agrees(b, keep_ids, keep_impedance, level_cap),
        level_cap < 2,
    ensures
        a.aligned(0),
    decreases a,
{
    assert forall|i: int| 0 <= i < a.children().len() implies (#[trigger] a.children()[i]).aligned(0) by {
        match a.content {
            ComponentContent::Series(cs) => {
                assert(decreases_to!(cs => cs[i]));
                lemma_cleared_records_are_aligned(cs[i], b.children()[i], keep_ids, keep_impedance, level_cap);
            },
            ComponentContent::Parallel(cs) => {
                assert(decreases_to!(cs => cs[i]));
                lemma_cleared_records_are_aligned(cs[i], b.children()[i], keep_ids, keep_impedance, level_cap);
            },
            _ => {},
        }
    }
}

/// Records kept by giving identifiers stay aligned.
pub proof fn lemma_ids_keep_alignment<V, Z, A>(a: Component<V, Z, A>, b: Component<V, Z, A>, n: nat)
    requires
        a.agrees(b, false, true, 2),
        b.aligned(n),
    ensures
        a.aligned(n),
    decreases a,
{
    assert forall|i: int| 0 <= i < a.children().len() implies (#[trigger] a.children()[i]).aligned(n) by {
        match a.content {
            ComponentContent::Series(cs) => {
                assert(decreases_to!(cs => cs[i]));
                lemma_ids_keep_alignment(cs[i], b.children()[i], n);
            },
            ComponentContent::Parallel(cs) => {
                assert(decreases_to!(cs => cs[i]));
                lemma_ids_keep_alignment(cs[i], b.children()[i], n);
            },
            _ => {},
        }
    }
}

impl<V, Z, A> Default for Component<V, Z, A> {
    /// An empty tree.
    fn default() -> (r: Self)
        ensures
            r.content is Poisoned,
            r.is_reset(Seq::empty()),
    {
        Component::new()
    }
}

/// A tree whose levels were all dropped to `Uninitialized` knows no
/// impedance, so what `init_impedance` computes on it reaches every position.
pub proof fn lemma_uninitialized_is_closed<V, Z, A>(
    a: Component<V, Z, A>,
    b: Component<V, Z, A>,
    keep_ids: bool,
    keep_impedance: bool,
)
    requires
        a.agrees(b, keep_ids, keep_impedance, 0),
    ensures
        a.known_closed(),
    decreases a,
{
    assert forall|i: int| 0 <= i < a.children().len() implies (#[trigger] a.children()[i]).known_closed() by {
        match a.content {
            ComponentContent::Series(cs) => {
                assert(decreases_to!(cs => cs[i]));
                lemma_uninitialized_is_closed(cs[i], b.children()[i], keep_ids, keep_impedance);
            },
            ComponentContent::Parallel(cs) => {
                assert(decreases_to!(cs => cs[i]));
                lemma_uninitialized_is_closed(cs[i], b.children()[i], keep_ids, keep_impedance);
            },
            _ => {},
        }
    }
}

/// Giving identifiers after dropping records drops the records.
pub proof fn lemma_agrees_compose<V, Z, A>(
    a: Component<V, Z, A>,
    b: Component<V, Z, A>,
    c: Component<V, Z, A>,
)
    requires
        a.agrees(b, false, true, 2),
        b.agrees(c, true, true, 1),
    ensures
        a.agrees(c, false, true, 1),
    decreases a,
{
    assert forall|i: int| 0 <= i < a.children().len() implies (#[trigger] a.children()[i]).agrees(
        c.children()[i],
        false,
        true,
        1,
    ) by {
        match a.content {
            ComponentContent::Series(cs) => {
                assert(decreases_to!(cs => cs[i]));
                lemma_agrees_compose(cs[i], b.children()[i], c.children()[i]);
            },
            ComponentContent::Parallel(cs) => {
                assert(decreases_to!(cs => cs[i]));
                lemma_agrees_compose(cs[i], b.children()[i], c.children()[i]);
            },
            _ => {},
        }
    }
}

/// Whether every branch fits depends on the shape of the tree alone.
pub proof fn lemma_agrees_keeps_fits<V, Z, A>(
    a: Component<V, Z, A>,
    b: Component<V, Z, A>,
    keep_ids: bool,
    keep_impedance: bool,
    level_cap: nat,
)
    requires
        a.agrees(b, keep_ids, keep_impedance, level_cap),
        b.fits(),
    ensures
        a.fits(),
    decreases a,
{
    match a.content {
        ComponentContent::Series(cs) => {
            assert forall|i: int| 0 <= i < cs.len() implies (#[trigger] cs@[i]).fits() by {
                assert(decreases_to!(cs => cs[i]));
                lemma_agrees_keeps_fits(cs[i], b.children()[i], keep_ids, keep_impedance, level_cap);
            }
        },
        ComponentContent::Parallel(cs) => {
            assert forall|i: int| 0 <= i < cs.len() implies (#[trigger] cs@[i]).fits() by {
                assert(decreases_to!(cs => cs[i]));
                lemma_agrees_keeps_fits(cs[i], b.children()[i], keep_ids, keep_impedance, level_cap);
            }
        },
        _ => {},
    }
}

/// Whether a path leads somewhere depends on the shape of the tree alone.
pub proof fn lemma_lookup_follows_shape<V, Z, A>(
    a: Component<V, Z, A>,
    b: Component<V, Z, A>,
    id: Seq<u8>,
    keep_ids: bool,
    keep_impedance: bool,
    level_cap: nat,
)
    requires
        a.agrees(b, keep_ids, keep_impedance, level_cap),
    ensures
        a.lookup(id) is Some <==> b.lookup(id) is Some,
        a.lookup(id) is Some ==> a.lookup(id)->Some_0.agrees(
            b.lookup(id)->Some_0,
            keep_ids,
            keep_impedance,
            level_cap,
        ),
    decreases id.len(),
{
    if id.len() > 0 && (id[0] as int) < a.children().len() {
        lemma_lookup_follows_shape(
            a.children()[id[0] as int],
            b.children()[id[0] as int],
            id.drop_first(),
            keep_ids,
            keep_impedance,
            level_cap,
        );
    }
}

/// Exchanges two entries of a vector.
fn swap_entries<T>(v: &mut Vec<T>, i: usize, j: usize)
    requires
        i < old(v).len(),
        j < old(v).len(),
    ensures
        final(v)@ == old(v)@.update(i as int, old(v)@[j as int]).update(j as int, old(v)@[i as int]),
{
    if i == j {
        assert(old(v)@.update(i as int, old(v)@[j as int]).update(j as int, old(v)@[i as int]) =~= old(v)@);
        return;
    }
    let lo = if i < j { i } else { j };
    let hi = if i < j { j } else { i };
    let high = v.remove(hi);
    let low = v.remove(lo);
    v.insert(lo, high);
    v.insert(hi, low);
    assert(final(v)@ =~= old(v)@.update(i as int, old(v)@[j as int]).update(j as int, old(v)@[i as int]));
}

impl<V, Z, A> From<Dipole<V, Z>> for Component<V, Z, A> {
    /// A component made of a single dipole, with nothing computed.
    fn from(content: Dipole<V, Z>) -> (r: Self)
        ensures
            r.content == ComponentContent::<V, Z, A>::Simple(content),
            r.is_reset(Seq::empty()),
    {
        Component {
            content: ComponentContent::Simple(content),
            impedance: None,
            node: Node::new(),
            fore_node_id: Vec::new(),
            init_state: ComponentInitState::Uninitialized,
        }
    }
}

impl<V, Z, A> vstd::std_specs::convert::FromSpecImpl<Dipole<V, Z>> for Component<V, Z, A> {
    open spec fn obeys_from_spec() -> bool {
        false
    }

    open spec fn from_spec(content: Dipole<V, Z>) -> Self {
        arbitrary()
    }
}

} // verus!
