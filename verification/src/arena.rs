//! Append-only indexed storage: a slot, once handed out, keeps its index.

use vstd::prelude::*;

verus! {

/// Stores values of `T` in the order in which they were pushed.
#[derive(Debug)]
pub struct Arena<T> {
    nodes: Vec<T>,
}

impl<T> View for Arena<T> {
    type V = Seq<T>;

    /// The stored values, by index.
    closed spec fn view(&self) -> Seq<T> {
        self.nodes@
    }
}

impl<T> Arena<T> {
    /// An arena that holds nothing.
    pub fn new() -> (arena: Self)
        ensures
            arena@ == Seq::<T>::empty(),
    {
        Self { nodes: Vec::new() }
    }

    /// Number of stored values.
    pub fn len(&self) -> (n: usize)
        ensures
            n == self@.len(),
    {
        self.nodes.len()
    }

    /// Appends `data` and returns its index, which is the length before the call.
    pub fn push(&mut self, data: T) -> (id: usize)
        ensures
            id == old(self)@.len(),
            final(self)@ == old(self)@.push(data),
    {
        self.nodes.push(data);
        self.nodes.len() - 1
    }

    /// The value stored at `id`.
    pub fn node(&self, id: usize) -> (r: &T)
        requires
            id < self@.len(),
        ensures
            *r == self@[id as int],
    {
        &self.nodes[id]
    }

    /// Exclusive access to the value stored at `id`; whatever the caller leaves
    /// there replaces it, and no other slot changes.
    pub fn node_mut(&mut self, id: usize) -> (r: &mut T)
        requires
            id < old(self)@.len(),
        ensures
            *r == old(self)@[id as int],
            final(self)@ == old(self)@.update(id as int, *final(r)),
    {
        &mut self.nodes[id]
    }
}

} // verus!
