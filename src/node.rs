//! What is recorded at a position of the tree.
use vstd::prelude::*;

verus! {

/// The current through a position of the tree, the tension across the
/// component that starts there and its potential, one entry per spectral
/// line, in the order of the lines. A node is known by the identifier of its
/// component.
#[derive(Clone, Debug)]
pub struct Node<A> {
    /// The tension across the component, for each line.
    pub next_component_tensions: Vec<A>,
    /// The potential of the node, for each line.
    pub potentials: Vec<A>,
    /// The current through the component, for each line.
    pub currents: Vec<A>,
}

impl<A> Node<A> {
    /// The number of lines recorded, where the three sequences agree on it.
    pub open spec fn aligned(self, n: nat) -> bool {
        &&& self.next_component_tensions.len() == n
        &&& self.potentials.len() == n
        &&& self.currents.len() == n
    }

    /// A node with nothing recorded.
    pub fn new() -> (r: Self)
        ensures
            r.aligned(0),
    {
        Node { next_component_tensions: Vec::new(), potentials: Vec::new(), currents: Vec::new() }
    }

    /// Drops everything recorded.
    pub fn clear(&mut self)
        ensures
            final(self).aligned(0),
    {
        self.next_component_tensions.clear();
        self.potentials.clear();
        self.currents.clear();
    }

    /// Records one line.
    pub fn record(&mut self, current: A, tension: A, potential: A)
        ensures
            final(self).currents@ == old(self).currents@.push(current),
            final(self).next_component_tensions@ == old(self).next_component_tensions@.push(tension),
            final(self).potentials@ == old(self).potentials@.push(potential),
    {
        self.currents.push(current);
        self.next_component_tensions.push(tension);
        self.potentials.push(potential);
    }
}

impl<A> Default for Node<A> {
    fn default() -> (r: Self)
        ensures
            r.aligned(0),
    {
        Node::new()
    }
}

} // verus!
