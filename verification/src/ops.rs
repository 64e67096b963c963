//! Arithmetic on handles. Every operation appends nodes to the graph and
//! returns the handle of the last one; none changes a node that exists.
//! Subtraction, division and negation are built from sum, product and power;
//! an operation that takes a plain value first stores it as a leaf.

use vstd::prelude::*;
use crate::number::{neg_one, Number};
use crate::scalar::{
    operands, with_leaf, with_power, with_product, with_sum, Op, Scalar, ScalarGraph,
};

verus! {

impl Scalar {
    /// `self + other`: one new node.
    pub fn add<V: Number>(&self, graph: &mut ScalarGraph<V>, other: Scalar) -> (r: Scalar)
        requires
            old(graph).well_formed(),
            old(graph).holds(*self),
            old(graph).holds(other),
        ensures
            r@ == old(graph)@.len(),
            final(graph)@ == with_sum(old(graph)@, self@, other@),
            final(graph).well_formed(),
    {
        let data = self.data(graph).plus(other.data(graph));
        proof {
            assert(operands(Op::<V>::Add(self@, other@))[0] == self@);
            assert(operands(Op::<V>::Add(self@, other@))[1] == other@);
        }
        graph.scalar_op(data, Op::Add(self.index(), other.index()))
    }

    /// `self * other`: one new node.
    pub fn mul<V: Number>(&self, graph: &mut ScalarGraph<V>, other: Scalar) -> (r: Scalar)
        requires
            old(graph).well_formed(),
            old(graph).holds(*self),
            old(graph).holds(other),
        ensures
            r@ == old(graph)@.len(),
            final(graph)@ == with_product(old(graph)@, self@, other@),
            final(graph).well_formed(),
    {
        let data = self.data(graph).times(other.data(graph));
        proof {
            assert(operands(Op::<V>::Mul(self@, other@))[0] == self@);
            assert(operands(Op::<V>::Mul(self@, other@))[1] == other@);
        }
        graph.scalar_op(data, Op::Mul(self.index(), other.index()))
    }

    /// `self + rhs` for a plain value: a leaf for `rhs`, then the sum.
    pub fn add_value<V: Number>(&self, graph: &mut ScalarGraph<V>, rhs: V) -> (r: Scalar)
        requires
            old(graph).well_formed(),
            old(graph).holds(*self),
        ensures
            r@ == old(graph)@.len() + 1,
            final(graph)@ == with_sum(
                with_leaf(old(graph)@, rhs),
                self@,
                old(graph)@.len() as usize,
            ),
            final(graph).well_formed(),
    {
        let other = graph.scalar(rhs);
        self.add(graph, other)
    }

    /// `lhs + self` for a plain value: a leaf for `lhs`, then the sum.
    pub fn radd_value<V: Number>(&self, graph: &mut ScalarGraph<V>, lhs: V) -> (r: Scalar)
        requires
            old(graph).well_formed(),
            old(graph).holds(*self),
        ensures
            r@ == old(graph)@.len() + 1,
            final(graph)@ == with_sum(
                with_leaf(old(graph)@, lhs),
                old(graph)@.len() as usize,
                self@,
            ),
            final(graph).well_formed(),
    {
        let other = graph.scalar(lhs);
        other.add(graph, *self)
    }

    /// `self * rhs` for a plain value: a leaf for `rhs`, then the product.
    pub fn mul_value<V: Number>(&self, graph: &mut ScalarGraph<V>, rhs: V) -> (r: Scalar)
        requires
            old(graph).well_formed(),
            old(graph).holds(*self),
        ensures
            r@ == old(graph)@.len() + 1,
            final(graph)@ == with_product(
                with_leaf(old(graph)@, rhs),
                self@,
                old(graph)@.len() as usize,
            ),
            final(graph).well_formed(),
    {
        let other = graph.scalar(rhs);
        self.mul(graph, other)
    }

    /// `lhs * self` for a plain value: a leaf for `lhs`, then the product.
    pub fn rmul_value<V: Number>(&self, graph: &mut ScalarGraph<V>, lhs: V) -> (r: Scalar)
        requires
            old(graph).well_formed(),
            old(graph).holds(*self),
        ensures
            r@ == old(graph)@.len() + 1,
            final(graph)@ == with_product(
                with_leaf(old(graph)@, lhs),
                old(graph)@.len() as usize,
                self@,
            ),
            final(graph).well_formed(),
    {
        let other = graph.scalar(lhs);
        other.mul(graph, *self)
    }

    /// `-self`, as minus one times `self`: a leaf for minus one, then the
    /// product.
    pub fn neg<V: Number>(&self, graph: &mut ScalarGraph<V>) -> (r: Scalar)
        requires
            old(graph).well_formed(),
            old(graph).holds(*self),
        ensures
            r@ == old(graph)@.len() + 1,
            final(graph)@ == with_product(
                with_leaf(old(graph)@, neg_one::<V>()),
                old(graph)@.len() as usize,
                self@,
            ),
            final(graph).well_formed(),
    {
        self.rmul_value(graph, V::one().negate())
    }

    /// `self - other`, as `self + (-other)`: the two nodes of the negation,
    /// then the sum.
    pub fn sub<V: Number>(&self, graph: &mut ScalarGraph<V>, other: Scalar) -> (r: Scalar)
        requires
            old(graph).well_formed(),
            old(graph).holds(*self),
            old(graph).holds(other),
        ensures
            r@ == old(graph)@.len() + 2,
            final(graph)@ == with_sum(
                with_product(
                    with_leaf(old(graph)@, neg_one::<V>()),
                    old(graph)@.len() as usize,
                    other@,
                ),
                self@,
                (old(graph)@.len() + 1) as usize,
            ),
            final(graph).well_formed(),
    {
        let negated = other.neg(graph);
        self.add(graph, negated)
    }

    /// `self - rhs` for a plain value, as `self + (-rhs)`: a leaf for `-rhs`,
    /// then the sum.
    pub fn sub_value<V: Number>(&self, graph: &mut ScalarGraph<V>, rhs: V) -> (r: Scalar)
        requires
            old(graph).well_formed(),
            old(graph).holds(*self),
        ensures
            r@ == old(graph)@.len() + 1,
            final(graph)@ == with_sum(
                with_leaf(old(graph)@, rhs.negate_spec()),
                self@,
                old(graph)@.len() as usize,
            ),
            final(graph).well_formed(),
    {
        self.add_value(graph, rhs.negate())
    }

    /// `lhs - self` for a plain value, as `lhs + (-self)`: the two nodes of
    /// the negation, a leaf for `lhs`, then the sum.
    pub fn rsub_value<V: Number>(&self, graph: &mut ScalarGraph<V>, lhs: V) -> (r: Scalar)
        requires
            old(graph).well_formed(),
            old(graph).holds(*self),
        ensures
            r@ == old(graph)@.len() + 3,
            final(graph)@ == with_sum(
                with_leaf(
                    with_product(
                        with_leaf(old(graph)@, neg_one::<V>()),
                        old(graph)@.len() as usize,
                        self@,
                    ),
                    lhs,
                ),
                (old(graph)@.len() + 2) as usize,
                (old(graph)@.len() + 1) as usize,
            ),
            final(graph).well_formed(),
    {
        let negated = self.neg(graph);
        negated.radd_value(graph, lhs)
    }

    /// `self / other`, as `self * other^(-1)`: the power, then the product.
    pub fn div<V: Number>(&self, graph: &mut ScalarGraph<V>, other: Scalar) -> (r: Scalar)
        requires
            old(graph).well_formed(),
            old(graph).holds(*self),
            old(graph).holds(other),
        ensures
            r@ == old(graph)@.len() + 1,
            final(graph)@ == with_product(
                with_power(old(graph)@, other@, neg_one::<V>()),
                self@,
                old(graph)@.len() as usize,
            ),
            final(graph).well_formed(),
    {
        let inverse = other.pow(graph, V::one().negate());
        self.mul(graph, inverse)
    }

    /// `self / rhs` for a plain value, as `self * rhs^(-1)`: a leaf for the
    /// inverse of `rhs`, then the product.
    pub fn div_value<V: Number>(&self, graph: &mut ScalarGraph<V>, rhs: V) -> (r: Scalar)
        requires
            old(graph).well_formed(),
            old(graph).holds(*self),
        ensures
            r@ == old(graph)@.len() + 1,
            final(graph)@ == with_product(
                with_leaf(old(graph)@, rhs.pow_spec(neg_one::<V>())),
                self@,
                old(graph)@.len() as usize,
            ),
            final(graph).well_formed(),
    {
        self.mul_value(graph, rhs.pow(V::one().negate()))
    }

    /// `lhs / self` for a plain value, as `lhs * self^(-1)`: the power, a
    /// leaf for `lhs`, then the product.
    pub fn rdiv_value<V: Number>(&self, graph: &mut ScalarGraph<V>, lhs: V) -> (r: Scalar)
        requires
            old(graph).well_formed(),
            old(graph).holds(*self),
        ensures
            r@ == old(graph)@.len() + 2,
            final(graph)@ == with_product(
                with_leaf(with_power(old(graph)@, self@, neg_one::<V>()), lhs),
                (old(graph)@.len() + 1) as usize,
                old(graph)@.len() as usize,
            ),
            final(graph).well_formed(),
    {
        let inverse = self.pow(graph, V::one().negate());
        inverse.rmul_value(graph, lhs)
    }
}

} // verus!
