//! A single perceptron.

use vstd::prelude::*;
use crate::nn::rows::{
    all_below, indices, row_fits, span, with_leaves, zero_gradients, zeroed, ModelOutput,
};
use crate::number::Number;
use crate::scalar::{with_product, with_relu, with_sum, Scalar, ScalarData, ScalarGraph};

verus! {

/// The nodes after the first `m` weights were each multiplied with the input
/// at the same place, every product after the first being added to the sum
/// of those before it.
pub open spec fn weighted_sum<V: Number>(
    nodes: Seq<ScalarData<V>>,
    weights: Seq<usize>,
    x: Seq<usize>,
    m: nat,
) -> Seq<ScalarData<V>>
    decreases m,
{
    if m == 0 {
        nodes
    } else if m == 1 {
        with_product(nodes, weights[0], x[0])
    } else {
        let earlier = weighted_sum(nodes, weights, x, (m - 1) as nat);
        let multiplied = with_product(earlier, weights[m - 1], x[m - 1]);
        with_sum(multiplied, (earlier.len() - 1) as usize, earlier.len() as usize)
    }
}

/// The nodes after a perceptron with parameters `handles` (the bias first)
/// was evaluated on `x`: the weighted sum over as many places as both the
/// weights and `x` have, then the bias added, then the rectifier where `relu`
/// is set. The last node is the output.
pub open spec fn neuron_forward<V: Number>(
    nodes: Seq<ScalarData<V>>,
    handles: Seq<usize>,
    relu: bool,
    x: Seq<usize>,
) -> Seq<ScalarData<V>> {
    let weights = handles.skip(1);
    let m = if weights.len() <= x.len() {
        weights.len()
    } else {
        x.len()
    };
    let summed = weighted_sum(nodes, weights, x, m);
    let biased = with_sum(summed, (summed.len() - 1) as usize, handles[0]);
    if relu {
        with_relu(biased, (biased.len() - 1) as usize)
    } else {
        biased
    }
}

/// The sum of the first `m` products of a weight with the input at the same
/// place, added up from the first on.
pub open spec fn dot<V: Number>(
    nodes: Seq<ScalarData<V>>,
    weights: Seq<usize>,
    x: Seq<usize>,
    m: nat,
) -> V
    decreases m,
{
    let last = nodes[weights[m - 1] as int].data.times_spec(nodes[x[m - 1] as int].data);
    if m <= 1 {
        nodes[weights[0] as int].data.times_spec(nodes[x[0] as int].data)
    } else {
        dot(nodes, weights, x, (m - 1) as nat).plus_spec(last)
    }
}

/// The value that a perceptron with parameters `handles` (the bias first)
/// gives on `x`: the products of weights and inputs summed, plus the bias,
/// and zero in place of that where `relu` is set and it is not positive.
pub open spec fn neuron_value<V: Number>(
    nodes: Seq<ScalarData<V>>,
    handles: Seq<usize>,
    relu: bool,
    x: Seq<usize>,
) -> V {
    let weights = handles.skip(1);
    let m = if weights.len() <= x.len() {
        weights.len()
    } else {
        x.len()
    };
    let sum = dot(nodes, weights, x, m).plus_spec(nodes[handles[0] as int].data);
    if relu && !sum.is_positive_spec() {
        V::zero_spec()
    } else {
        sum
    }
}

/// The sum of products reads the values of the weights and inputs only, so
/// it is the same in every graph that has grown from `nodes`.
proof fn lemma_dot_in_longer<V: Number>(
    nodes: Seq<ScalarData<V>>,
    longer: Seq<ScalarData<V>>,
    weights: Seq<usize>,
    x: Seq<usize>,
    m: nat,
)
    requires
        nodes.is_prefix_of(longer),
        1 <= m <= weights.len(),
        m <= x.len(),
        all_below(weights, nodes.len()),
        all_below(x, nodes.len()),
    ensures
        dot(longer, weights, x, m) == dot(nodes, weights, x, m),
    decreases m,
{
    assert(weights[m - 1] < nodes.len() && x[m - 1] < nodes.len());
    assert(weights[0] < nodes.len() && x[0] < nodes.len());
    if m > 1 {
        lemma_dot_in_longer(nodes, longer, weights, x, (m - 1) as nat);
    }
}

/// A perceptron gives the same value in every graph that has grown from
/// `nodes`.
pub(crate) proof fn lemma_neuron_value_in_longer<V: Number>(
    nodes: Seq<ScalarData<V>>,
    longer: Seq<ScalarData<V>>,
    handles: Seq<usize>,
    relu: bool,
    x: Seq<usize>,
)
    requires
        nodes.is_prefix_of(longer),
        handles.len() >= 2,
        x.len() >= 1,
        all_below(handles, nodes.len()),
        all_below(x, nodes.len()),
    ensures
        neuron_value(longer, handles, relu, x) == neuron_value(nodes, handles, relu, x),
{
    let weights = handles.skip(1);
    let m = if weights.len() <= x.len() {
        weights.len()
    } else {
        x.len()
    };
    assert forall|i: int| 0 <= i < weights.len() implies (#[trigger] weights[i])
        < nodes.len() by {
        assert(handles[i + 1] < nodes.len());
    }
    assert(handles[0] < nodes.len());
    lemma_dot_in_longer(nodes, longer, weights, x, m);
}

/// A single perceptron: a bias and one weight for each input.
#[derive(Debug)]
pub struct Neuron {
    w: Vec<Scalar>,
    relu: bool,
}

impl Neuron {
    /// There is always a bias.
    #[verifier::type_invariant]
    spec fn has_bias(self) -> bool {
        self.w@.len() >= 1
    }

    /// The node indices of the parameters: the bias, then the weights.
    pub closed spec fn handles(&self) -> Seq<usize> {
        indices(self.w@)
    }

    /// Whether the output passes through the rectifier.
    pub closed spec fn is_relu(&self) -> bool {
        self.relu
    }

    /// Whether all parameters are nodes of a graph of `len` nodes.
    pub open spec fn fits(&self, len: nat) -> bool {
        all_below(self.handles(), len)
    }

    /// The weights, without the bias.
    pub fn w(&self) -> (weights: &[Scalar])
        ensures
            self.handles().len() >= 1,
            indices(weights@) == self.handles().skip(1),
    {
        proof {
            use_type_invariant(self);
        }
        let all = self.w.as_slice();
        let weights = vstd::slice::slice_subrange(all, 1, all.len());
        proof {
            assert(indices(weights@) =~= self.handles().skip(1));
        }
        weights
    }

    /// The bias.
    pub fn b(&self) -> (bias: Scalar)
        ensures
            self.handles().len() >= 1,
            bias@ == self.handles()[0],
    {
        proof {
            use_type_invariant(self);
        }
        self.w[0]
    }

    /// Whether the perceptron can be evaluated on `x` in a graph of `len`
    /// nodes: it has at least one weight, `x` has at least one item, and all
    /// of them are nodes of the graph.
    pub open spec fn accepts(&self, len: nat, x: Seq<usize>) -> bool {
        &&& self.handles().len() >= 2
        &&& x.len() >= 1
        &&& self.fits(len)
        &&& all_below(x, len)
    }

    /// Whether all parameters are nodes of `graph` and there is at least one
    /// weight.
    pub fn is_sound<V: Number>(&self, graph: &ScalarGraph<V>) -> (ok: bool)
        ensures
            ok == (self.fits(graph@.len()) && self.handles().len() >= 2),
    {
        self.w.len() >= 2 && row_fits(graph, self.w.as_slice())
    }

    /// Whether the perceptron can be evaluated on `x` in `graph`.
    pub fn can_call<V: Number>(&self, graph: &ScalarGraph<V>, x: &[Scalar]) -> (ok: bool)
        ensures
            ok == self.accepts(graph@.len(), indices(x@)),
    {
        self.is_sound(graph) && x.len() >= 1 && row_fits(graph, x)
    }

    /// Evaluates the perceptron on `x`: appends the nodes of the computation
    /// and returns the handle of the last one.
    pub fn call<V: Number>(&self, graph: &mut ScalarGraph<V>, x: &[Scalar]) -> (out: ModelOutput)
        requires
            old(graph).well_formed(),
            self.accepts(old(graph)@.len(), indices(x@)),
        ensures
            final(graph)@ == neuron_forward(
                old(graph)@,
                self.handles(),
                self.is_relu(),
                indices(x@),
            ),
            final(graph).well_formed(),
            old(graph)@.is_prefix_of(final(graph)@),
            out matches ModelOutput::Scalar(s) && s@ + 1 == final(graph)@.len()
                && final(graph)@[s@ as int].data == neuron_value(
                old(graph)@,
                self.handles(),
                self.is_relu(),
                indices(x@),
            ),
    {
        ModelOutput::Scalar(self.forward(graph, x))
    }

    /// The evaluation itself, with the output as a handle.
    pub fn forward<V: Number>(&self, graph: &mut ScalarGraph<V>, x: &[Scalar]) -> (out: Scalar)
        requires
            old(graph).well_formed(),
            self.accepts(old(graph)@.len(), indices(x@)),
        ensures
            final(graph)@ == neuron_forward(
                old(graph)@,
                self.handles(),
                self.is_relu(),
                indices(x@),
            ),
            final(graph).well_formed(),
            old(graph)@.is_prefix_of(final(graph)@),
            out@ + 1 == final(graph)@.len(),
            old(graph)@.len() < final(graph)@.len(),
            final(graph)@[out@ as int].data == neuron_value(
                old(graph)@,
                self.handles(),
                self.is_relu(),
                indices(x@),
            ),
    {
        let ghost start = graph@;
        let ghost xs = indices(x@);
        let ghost weights = self.handles().skip(1);
        let w = self.w();
        let m = if w.len() <= x.len() {
            w.len()
        } else {
            x.len()
        };
        assert(indices(w@).len() == w@.len());
        assert(weights[0] == indices(w@)[0]);
        assert(self.handles()[1] < start.len());
        assert(xs[0] < start.len());
        let mut act = w[0].mul(graph, x[0]);
        let mut i: usize = 1;
        while i < m
            invariant
                1 <= i <= m,
                m <= w@.len(),
                m <= x@.len(),
                xs == indices(x@),
                weights == indices(w@),
                all_below(weights, start.len()),
                all_below(xs, start.len()),
                graph.well_formed(),
                start.len() < graph@.len(),
                start.is_prefix_of(graph@),
                graph@ == weighted_sum(start, weights, xs, i as nat),
                act@ + 1 == graph@.len(),
                graph@[act@ as int].data == dot(start, weights, xs, i as nat),
            decreases m - i,
        {
            assert(weights[i as int] < start.len());
            assert(xs[i as int] < start.len());
            let ghost here = graph@;
            let product = w[i].mul(graph, x[i]);
            act = act.add(graph, product);
            proof {
                assert(here[weights[i as int] as int] == start[weights[i as int] as int]);
                assert(here[xs[i as int] as int] == start[xs[i as int] as int]);
            }
            i += 1;
        }
        assert(self.handles()[0] < start.len());
        assert(graph@[self.handles()[0] as int] == start[self.handles()[0] as int]);
        let act = act.add(graph, self.b());
        if self.relu {
            act.relu(graph)
        } else {
            act
        }
    }

    /// The handles of the parameters: the bias, then the weights.
    pub fn parameters(&self) -> (params: Vec<Scalar>)
        ensures
            indices(params@) == self.handles(),
    {
        let mut params: Vec<Scalar> = Vec::new();
        let mut k: usize = 0;
        while k < self.w.len()
            invariant
                k <= self.w.len(),
                params@ == self.w@.take(k as int),
            decreases self.w.len() - k,
        {
            params.push(self.w[k]);
            proof {
                assert(self.w@.take(k + 1) =~= self.w@.take(k as int).push(self.w@[k as int]));
            }
            k += 1;
        }
        proof {
            assert(self.w@.take(self.w.len() as int) =~= self.w@);
        }
        params
    }

    /// Sets the gradient of every parameter to zero.
    pub fn zero_grad<V: Number>(&self, graph: &mut ScalarGraph<V>)
        requires
            old(graph).well_formed(),
            self.fits(old(graph)@.len()),
        ensures
            final(graph)@ == zeroed(old(graph)@, self.handles()),
            final(graph).well_formed(),
    {
        let params = self.parameters();
        zero_gradients(graph, &params)
    }
}

impl<V: Number> ScalarGraph<V> {
    /// A perceptron whose parameters are new leaves with the `count` values
    /// of `init` from place `start` on.
    pub(crate) fn neuron_from(&mut self, init: &[V], start: usize, count: usize, relu: bool) -> (neuron:
        Neuron)
        requires
            old(self).well_formed(),
            count >= 1,
            start + count <= init@.len(),
        ensures
            final(self)@ == with_leaves(old(self)@, init@.subrange(start as int, start + count)),
            final(self).well_formed(),
            neuron.handles() == span(old(self)@.len() as int, count as int),
            neuron.is_relu() == relu,
            neuron.fits(final(self)@.len()),
            final(self)@.len() == old(self)@.len() + count,
    {
        let ghost before = self@;
        let total = init.len();
        let mut w: Vec<Scalar> = Vec::new();
        let mut i: usize = 0;
        proof {
            assert(self@ =~= with_leaves(before, init@.subrange(start as int, start as int)));
            assert(indices(w@) =~= span(before.len() as int, 0));
        }
        while i < count
            invariant
                i <= count,
                start + count <= init@.len(),
                total == init@.len(),
                w@.len() == i,
                self.well_formed(),
                self@ == with_leaves(before, init@.subrange(start as int, start + i)),
                indices(w@) == span(before.len() as int, i as int),
            decreases count - i,
        {
            let ghost old_w = indices(w@);
            let leaf = self.scalar(init[start + i]);
            w.push(leaf);
            proof {
                assert(self@ =~= with_leaves(before, init@.subrange(start as int, start + i + 1)));
                assert(indices(w@) =~= span(before.len() as int, i + 1)) by {
                    assert(indices(w@).len() == i + 1);
                    assert forall|k: int| 0 <= k < i + 1 implies indices(w@)[k] == span(
                        before.len() as int,
                        i + 1,
                    )[k] by {
                        if k < i {
                            assert(indices(w@)[k] == old_w[k]);
                        }
                    }
                }
            }
            i += 1;
        }
        Neuron { w, relu }
    }

    /// Creates a perceptron with `nin` weights and a bias. Its parameters
    /// are new leaves: the bias takes the first value of `init` and the
    /// weights the ones after it.
    pub fn neuron(&mut self, nin: usize, relu: bool, init: &[V]) -> (neuron: Neuron)
        requires
            old(self).well_formed(),
            init@.len() == nin + 1,
        ensures
            final(self)@ == with_leaves(old(self)@, init@),
            final(self).well_formed(),
            neuron.handles() == span(old(self)@.len() as int, nin + 1),
            neuron.is_relu() == relu,
            neuron.fits(final(self)@.len()),
    {
        proof {
            assert(init@.subrange(0, init@.len() as int) =~= init@);
        }
        self.neuron_from(init, 0, init.len(), relu)
    }
}

} // verus!
