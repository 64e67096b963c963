//! Node storage for a graph: the arena, under the names that graph code
//! uses.

use vstd::prelude::*;
use crate::arena::Arena;

verus! {

/// Stores the nodes of a graph in the order in which they were added; a
/// node keeps its index for as long as the graph lives.
#[derive(Debug)]
pub struct Graph<T> {
    nodes: Arena<T>,
}

impl<T> View for Graph<T> {
    type V = Seq<T>;

    /// The nodes, by index.
    closed spec fn view(&self) -> Seq<T> {
        self.nodes@
    }
}

impl<T> Graph<T> {
    /// A graph without nodes.
    pub fn new() -> (graph: Self)
        ensures
            graph@ == Seq::<T>::empty(),
    {
        Self { nodes: Arena::new() }
    }

    /// Number of nodes.
    pub fn len(&self) -> (n: usize)
        ensures
            n == self@.len(),
    {
        self.nodes.len()
    }

    /// Adds the node `data` and returns its index, which is the number of
    /// nodes before the call.
    pub fn push(&mut self, data: T) -> (id: usize)
        ensures
            id == old(self)@.len(),
            final(self)@ == old(self)@.push(data),
    {
        self.nodes.push(data)
    }

    /// The node at `id`.
    pub fn node(&self, id: usize) -> (r: &T)
        requires
            id < self@.len(),
        ensures
            *r == self@[id as int],
    {
        self.nodes.node(id)
    }

    /// Exclusive access to the node at `id`; whatever the caller leaves
    /// there replaces it, and no other node changes.
    pub fn node_mut(&mut self, id: usize) -> (r: &mut T)
        requires
            id < old(self)@.len(),
        ensures
            *r == old(self)@[id as int],
            final(self)@ == old(self)@.update(id as int, *final(r)),
    {
        self.nodes.node_mut(id)
    }
}

} // verus!
