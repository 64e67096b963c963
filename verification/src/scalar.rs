//! The computation graph, its node records, and the handles that name nodes.

use vstd::prelude::*;
use crate::arena::Arena;
use crate::number::Number;

verus! {

/// How a node was produced. The variants hold the indices of the operand nodes.
#[derive(Copy, Debug)]
pub enum Op<V> {
    /// A leaf.
    Leaf,
    /// Sum of two nodes.
    Add(usize, usize),
    /// Product of two nodes.
    Mul(usize, usize),
    /// A node raised to a constant exponent.
    Pow(usize, V),
    /// A node clamped below at zero.
    ReLU(usize),
}

/// What the graph stores for one node.
#[derive(Copy, Debug)]
pub struct ScalarData<V> {
    /// The node's value, fixed when the node is created.
    pub data: V,
    /// The gradient accumulated so far.
    pub grad: V,
    /// The operation that produced the node.
    pub op: Op<V>,
}

impl<V: Copy> Clone for Op<V> {
    fn clone(&self) -> (copy: Self)
        ensures
            copy == *self,
    {
        *self
    }
}

impl<V: Copy> Clone for ScalarData<V> {
    fn clone(&self) -> (copy: Self)
        ensures
            copy == *self,
    {
        *self
    }
}

/// The operand indices of `op`, in the order in which they are visited.
pub open spec fn operands<V>(op: Op<V>) -> Seq<usize> {
    match op {
        Op::Leaf => seq![],
        Op::Add(s, o) => seq![s, o],
        Op::Mul(s, o) => seq![s, o],
        Op::Pow(s, _) => seq![s],
        Op::ReLU(s) => seq![s],
    }
}

/// Every operand of every node was created before the node itself.
pub open spec fn is_dag<V>(nodes: Seq<ScalarData<V>>) -> bool {
    forall|i: int, k: int|
        0 <= i < nodes.len() && 0 <= k < operands(nodes[i].op).len() ==> (#[trigger] operands(
            nodes[i].op,
        )[k]) < i
}

/// A freshly created node: the given value and operation, and no gradient yet.
pub open spec fn fresh<V: Number>(data: V, op: Op<V>) -> ScalarData<V> {
    ScalarData { data, grad: V::zero_spec(), op }
}

/// The nodes with one more leaf, of value `data`.
pub open spec fn with_leaf<V: Number>(nodes: Seq<ScalarData<V>>, data: V) -> Seq<ScalarData<V>> {
    nodes.push(fresh(data, Op::Leaf))
}

/// The nodes with one more node: the sum of nodes `a` and `b`.
pub open spec fn with_sum<V: Number>(nodes: Seq<ScalarData<V>>, a: usize, b: usize) -> Seq<
    ScalarData<V>,
> {
    nodes.push(fresh(nodes[a as int].data.plus_spec(nodes[b as int].data), Op::Add(a, b)))
}

/// The nodes with one more node: the product of nodes `a` and `b`.
pub open spec fn with_product<V: Number>(nodes: Seq<ScalarData<V>>, a: usize, b: usize) -> Seq<
    ScalarData<V>,
> {
    nodes.push(fresh(nodes[a as int].data.times_spec(nodes[b as int].data), Op::Mul(a, b)))
}

/// The nodes with one more node: node `a` raised to `exponent`.
pub open spec fn with_power<V: Number>(nodes: Seq<ScalarData<V>>, a: usize, exponent: V) -> Seq<
    ScalarData<V>,
> {
    nodes.push(fresh(nodes[a as int].data.pow_spec(exponent), Op::Pow(a, exponent)))
}

/// The nodes with one more node: node `a` where its value is positive, zero
/// where it is not.
pub open spec fn with_relu<V: Number>(nodes: Seq<ScalarData<V>>, a: usize) -> Seq<ScalarData<V>> {
    let data = nodes[a as int].data;
    nodes.push(fresh(if data.is_positive_spec() { data } else { V::zero_spec() }, Op::ReLU(a)))
}

/// The nodes with every gradient set to zero.
pub open spec fn cleared<V: Number>(nodes: Seq<ScalarData<V>>) -> Seq<ScalarData<V>> {
    Seq::new(
        nodes.len(),
        |i: int| ScalarData { data: nodes[i].data, grad: V::zero_spec(), op: nodes[i].op },
    )
}

/// Owns every node of one computation.
pub struct ScalarGraph<V> {
    inner: Arena<ScalarData<V>>,
}

/// Names one node of a graph. Copies of a handle name the same node.
#[derive(Copy, Clone, Debug)]
pub struct Scalar {
    id: usize,
}

impl View for Scalar {
    type V = usize;

    /// The index of the node that the handle names.
    closed spec fn view(&self) -> usize {
        self.id
    }
}

impl Scalar {
    /// The index of the node that the handle names.
    pub fn index(&self) -> (id: usize)
        ensures
            id == self@,
    {
        self.id
    }

    /// The node's value.
    pub fn data<V: Number>(&self, graph: &ScalarGraph<V>) -> (data: V)
        requires
            graph.holds(*self),
        ensures
            data == graph@[self@ as int].data,
    {
        graph.node(self.id).data
    }

    /// The gradient that the node has accumulated.
    pub fn grad<V: Number>(&self, graph: &ScalarGraph<V>) -> (grad: V)
        requires
            graph.holds(*self),
        ensures
            grad == graph@[self@ as int].grad,
    {
        graph.node(self.id).grad
    }

    /// A new node that holds this node's value raised to `exponent`.
    pub fn pow<V: Number>(&self, graph: &mut ScalarGraph<V>, exponent: V) -> (r: Scalar)
        requires
            old(graph).well_formed(),
            old(graph).holds(*self),
        ensures
            r@ == old(graph)@.len(),
            final(graph)@ == with_power(old(graph)@, self@, exponent),
            final(graph).well_formed(),
    {
        let data = self.data(graph).pow(exponent);
        proof {
            assert(operands(Op::Pow(self@, exponent))[0] == self@);
        }
        graph.scalar_op(data, Op::Pow(self.id, exponent))
    }

    /// A new node that holds this node's value where that is positive, and
    /// zero where it is not.
    pub fn relu<V: Number>(&self, graph: &mut ScalarGraph<V>) -> (r: Scalar)
        requires
            old(graph).well_formed(),
            old(graph).holds(*self),
        ensures
            r@ == old(graph)@.len(),
            final(graph)@ == with_relu(old(graph)@, self@),
            final(graph).well_formed(),
    {
        let data = if self.data(graph).is_positive() {
            self.data(graph)
        } else {
            V::zero()
        };
        proof {
            assert(operands(Op::<V>::ReLU(self@))[0] == self@);
        }
        graph.scalar_op(data, Op::ReLU(self.id))
    }

    /// Replaces the node's gradient by `grad`; nothing else changes.
    pub fn set_grad<V: Number>(&self, graph: &mut ScalarGraph<V>, grad: V)
        requires
            old(graph).holds(*self),
        ensures
            final(graph)@ == old(graph)@.update(
                self@ as int,
                ScalarData {
                    data: old(graph)@[self@ as int].data,
                    grad,
                    op: old(graph)@[self@ as int].op,
                },
            ),
            old(graph).well_formed() ==> final(graph).well_formed(),
    {
        graph.node_mut(self.id).grad = grad;
        proof {
            let before = old(graph)@;
            let after = graph@;
            if is_dag(before) {
                assert forall|i: int, k: int|
                    0 <= i < after.len() && 0 <= k < operands(after[i].op).len() implies (
                #[trigger] operands(after[i].op)[k]) < i by {
                    assert(after[i].op == before[i].op);
                    assert(operands(before[i].op)[k] < i);
                }
            }
        }
    }
}

impl<V> View for ScalarGraph<V> {
    type V = Seq<ScalarData<V>>;

    /// The node records, by index.
    closed spec fn view(&self) -> Seq<ScalarData<V>> {
        self.inner@
    }
}

impl<V: Number> ScalarGraph<V> {
    /// The graph's invariant: operands precede the nodes that use them.
    pub open spec fn well_formed(&self) -> bool {
        is_dag(self@)
    }

    /// Whether `s` names a node of this graph.
    pub open spec fn holds(&self, s: Scalar) -> bool {
        s@ < self@.len()
    }

    /// A graph without nodes.
    pub fn new() -> (g: Self)
        ensures
            g@ == Seq::<ScalarData<V>>::empty(),
            g.well_formed(),
    {
        Self { inner: Arena::new() }
    }

    /// Runs `f` on a graph without nodes and returns what `f` returns; the
    /// graph and all its nodes are gone when the call ends.
    pub fn with<FN, R>(f: FN) -> (r: R) where FN: FnOnce(&mut ScalarGraph<V>) -> R
        requires
            forall|g: &mut ScalarGraph<V>|
                (*g)@ == Seq::<ScalarData<V>>::empty() ==> #[trigger] f.requires((g,)),
        ensures
            exists|g: &mut ScalarGraph<V>|
                (*g)@ == Seq::<ScalarData<V>>::empty() && #[trigger] f.ensures((g,), r),
    {
        let mut g = Self { inner: Arena::new() };
        f(&mut g)
    }

    /// Whether the graph meets its invariant. Every graph that this module
    /// hands out does; the test is for a caller that cannot know it.
    pub fn is_well_formed(&self) -> (ok: bool)
        ensures
            ok == self.well_formed(),
    {
        let len = self.inner.len();
        let mut id: usize = 0;
        while id < len
            invariant
                id <= len,
                len == self@.len(),
                forall|i: int, k: int|
                    0 <= i < id && 0 <= k < operands(self@[i].op).len() ==> (#[trigger] operands(
                        self@[i].op,
                    )[k]) < i,
            decreases len - id,
        {
            let ok = match self.inner.node(id).op {
                Op::Leaf => true,
                Op::Add(s, o) => s < id && o < id,
                Op::Mul(s, o) => s < id && o < id,
                Op::Pow(s, _) => s < id,
                Op::ReLU(s) => s < id,
            };
            if !ok {
                proof {
                    let ops = operands(self@[id as int].op);
                    assert(ops.len() >= 1);
                    assert(!(ops[0] < id) || (ops.len() == 2 && !(ops[1] < id)));
                }
                return false;
            }
            id += 1;
        }
        true
    }

    /// Number of nodes.
    pub fn len(&self) -> (n: usize)
        ensures
            n == self@.len(),
    {
        self.inner.len()
    }

    /// Whether `s` names a node of this graph.
    pub fn has(&self, s: Scalar) -> (ok: bool)
        ensures
            ok == self.holds(s),
    {
        s.index() < self.inner.len()
    }

    /// The record of node `id`.
    pub fn node(&self, id: usize) -> (r: &ScalarData<V>)
        requires
            id < self@.len(),
        ensures
            *r == self@[id as int],
    {
        self.inner.node(id)
    }

    /// Exclusive access to the record of node `id`, for the engine's own use:
    /// a caller outside could change the node's operation.
    pub(crate) fn node_mut(&mut self, id: usize) -> (r: &mut ScalarData<V>)
        requires
            id < old(self)@.len(),
        ensures
            *r == old(self)@[id as int],
            final(self)@ == old(self)@.update(id as int, *final(r)),
    {
        self.inner.node_mut(id)
    }

    /// Creates a leaf with value `data` and returns its handle.
    pub fn scalar(&mut self, data: V) -> (s: Scalar)
        requires
            old(self).well_formed(),
        ensures
            s@ == old(self)@.len(),
            final(self)@ == with_leaf(old(self)@, data),
            final(self).well_formed(),
    {
        let id = self.inner.push(ScalarData { data, grad: V::zero(), op: Op::Leaf });
        Scalar { id }
    }

    /// Sets the gradient of every node to zero, as it was when the node was
    /// created; values and operations stay.
    pub fn zero_grad(&mut self)
        ensures
            final(self)@ == cleared(old(self)@),
            old(self).well_formed() ==> final(self).well_formed(),
    {
        let ghost before = self@;
        let len = self.inner.len();
        let mut id: usize = 0;
        while id < len
            invariant
                id <= len,
                len == before.len(),
                self@.len() == len,
                forall|i: int| 0 <= i < id ==> #[trigger] self@[i] == cleared(before)[i],
                forall|i: int| id <= i < len ==> #[trigger] self@[i] == before[i],
            decreases len - id,
        {
            self.inner.node_mut(id).grad = V::zero();
            id += 1;
        }
        proof {
            assert(self@ =~= cleared(before));
            if is_dag(before) {
                assert forall|i: int, k: int|
                    0 <= i < self@.len() && 0 <= k < operands(self@[i].op).len() implies (
                #[trigger] operands(self@[i].op)[k]) < i by {
                    assert(self@[i].op == before[i].op);
                    assert(operands(before[i].op)[k] < i);
                }
            }
        }
    }

    /// Creates a node with value `data` produced by `op`, whose operands must
    /// already be in the graph.
    pub fn scalar_op(&mut self, data: V, op: Op<V>) -> (s: Scalar)
        requires
            old(self).well_formed(),
            forall|k: int| 0 <= k < operands(op).len() ==> operands(op)[k] < old(self)@.len(),
        ensures
            s@ == old(self)@.len(),
            final(self)@ == old(self)@.push(fresh(data, op)),
            final(self).well_formed(),
    {
        let id = self.inner.push(ScalarData { data, grad: V::zero(), op });
        Scalar { id }
    }
}

} // verus!
