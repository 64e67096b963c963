//! A row of perceptrons on the same inputs.

use vstd::prelude::*;
use crate::nn::neuron::{lemma_neuron_value_in_longer, neuron_forward, neuron_value, Neuron};
use crate::nn::rows::{
    all_below, indices, lemma_all_below_grows, lemma_with_leaves_twice, output_indices, span,
    with_leaves, zero_gradients, zeroed, ModelOutput,
};
use crate::number::Number;
use crate::scalar::{Scalar, ScalarData, ScalarGraph};

verus! {

/// The nodes, and the outputs so far, after the first `k` of `neurons` were
/// each evaluated on `x`, one after the other.
pub open spec fn layer_state<V: Number>(
    nodes: Seq<ScalarData<V>>,
    neurons: Seq<Neuron>,
    x: Seq<usize>,
    k: nat,
) -> (Seq<ScalarData<V>>, Seq<usize>)
    decreases k,
{
    if k == 0 {
        (nodes, Seq::empty())
    } else {
        let (earlier, outputs) = layer_state(nodes, neurons, x, (k - 1) as nat);
        let neuron = neurons[k - 1];
        let after = neuron_forward(earlier, neuron.handles(), neuron.is_relu(), x);
        (after, outputs.push((after.len() - 1) as usize))
    }
}

/// The parameters of the first `k` of `neurons`, one perceptron after the
/// other.
pub open spec fn layer_handles(neurons: Seq<Neuron>, k: nat) -> Seq<usize>
    decreases k,
{
    if k == 0 {
        Seq::empty()
    } else {
        layer_handles(neurons, (k - 1) as nat) + neurons[k - 1].handles()
    }
}

/// Where each perceptron's parameters are nodes of the graph, so are the
/// parameters of all of them together.
pub(crate) proof fn lemma_layer_handles_below(neurons: Seq<Neuron>, k: nat, len: nat)
    requires
        k <= neurons.len(),
        forall|i: int| 0 <= i < neurons.len() ==> (#[trigger] neurons[i]).fits(len),
    ensures
        all_below(layer_handles(neurons, k), len),
    decreases k,
{
    if k > 0 {
        lemma_layer_handles_below(neurons, (k - 1) as nat, len);
        let earlier = layer_handles(neurons, (k - 1) as nat);
        let last = neurons[k - 1].handles();
        assert(neurons[k - 1].fits(len));
        assert forall|i: int| 0 <= i < (earlier + last).len() implies (#[trigger] (earlier
            + last)[i]) < len by {
            if i < earlier.len() {
                assert(earlier[i] < len);
            } else {
                assert(last[i - earlier.len()] < len);
            }
        }
    }
}

/// Whether `layer` is a row of `nout` perceptrons with `nin` weights each,
/// whose parameters are the nodes from `first` on, one perceptron after the
/// other, and which all apply the rectifier or not as `relu` says.
pub open spec fn is_layer_at(layer: Layer, first: int, nin: int, nout: int, relu: bool) -> bool {
    &&& layer.neurons().len() == nout
    &&& forall|j: int|
        0 <= j < nout ==> (#[trigger] layer.neurons()[j]).handles() == span(
            first + j * (nin + 1),
            nin + 1,
        ) && layer.neurons()[j].is_relu() == relu
}

/// A row of perceptrons that are evaluated on the same inputs.
#[derive(Debug)]
pub struct Layer {
    neurons: Vec<Neuron>,
}

impl Layer {
    /// The perceptrons, in order.
    pub closed spec fn neurons(&self) -> Seq<Neuron> {
        self.neurons@
    }

    /// The node indices of all parameters, one perceptron after the other.
    pub open spec fn handles(&self) -> Seq<usize> {
        layer_handles(self.neurons(), self.neurons().len())
    }

    /// Whether all parameters are nodes of a graph of `len` nodes.
    pub open spec fn fits(&self, len: nat) -> bool {
        forall|i: int| 0 <= i < self.neurons().len() ==> (#[trigger] self.neurons()[i]).fits(len)
    }

    /// Whether the layer can be evaluated on `x` in a graph of `len` nodes:
    /// each of its perceptrons can.
    pub open spec fn accepts(&self, len: nat, x: Seq<usize>) -> bool {
        forall|i: int|
            0 <= i < self.neurons().len() ==> (#[trigger] self.neurons()[i]).accepts(len, x)
    }

    /// Whether the layer can be evaluated on `x` in `graph`.
    pub fn can_call<V: Number>(&self, graph: &ScalarGraph<V>, x: &[Scalar]) -> (ok: bool)
        ensures
            ok == self.accepts(graph@.len(), indices(x@)),
    {
        let mut k: usize = 0;
        while k < self.neurons.len()
            invariant
                k <= self.neurons.len(),
                forall|i: int|
                    0 <= i < k ==> (#[trigger] self.neurons()[i]).accepts(
                        graph@.len(),
                        indices(x@),
                    ),
            decreases self.neurons.len() - k,
        {
            if !self.neurons[k].can_call(graph, x) {
                proof {
                    assert(!self.neurons()[k as int].accepts(graph@.len(), indices(x@)));
                }
                return false;
            }
            k += 1;
        }
        true
    }

    /// Number of perceptrons.
    pub fn len(&self) -> (n: usize)
        ensures
            n == self.neurons().len(),
    {
        self.neurons.len()
    }

    /// Whether every parameter is a node of `graph`, and every perceptron
    /// has at least one weight.
    pub fn is_sound<V: Number>(&self, graph: &ScalarGraph<V>) -> (ok: bool)
        ensures
            ok == (self.fits(graph@.len()) && forall|j: int|
                0 <= j < self.neurons().len() ==> (#[trigger] self.neurons()[j]).handles().len()
                    >= 2),
    {
        let mut k: usize = 0;
        while k < self.neurons.len()
            invariant
                k <= self.neurons.len(),
                forall|i: int| 0 <= i < k ==> (#[trigger] self.neurons()[i]).fits(graph@.len()),
                forall|i: int| 0 <= i < k ==> (#[trigger] self.neurons()[i]).handles().len() >= 2,
            decreases self.neurons.len() - k,
        {
            if !self.neurons[k].is_sound(graph) {
                proof {
                    let witness = self.neurons()[k as int];
                    assert(!(witness.fits(graph@.len()) && witness.handles().len() >= 2));
                }
                return false;
            }
            k += 1;
        }
        true
    }

    /// Evaluates every perceptron on `x`, in order, and returns the row of
    /// their outputs.
    pub fn call<V: Number>(&self, graph: &mut ScalarGraph<V>, x: &[Scalar]) -> (out: ModelOutput)
        requires
            old(graph).well_formed(),
            self.accepts(old(graph)@.len(), indices(x@)),
        ensures
            final(graph)@ == layer_state(
                old(graph)@,
                self.neurons(),
                indices(x@),
                self.neurons().len(),
            ).0,
            final(graph).well_formed(),
            out matches ModelOutput::Vector(v) && indices(v@) == layer_state(
                old(graph)@,
                self.neurons(),
                indices(x@),
                self.neurons().len(),
            ).1,
            output_indices(out).len() == self.neurons().len(),
            old(graph)@.is_prefix_of(final(graph)@),
            all_below(output_indices(out), final(graph)@.len()),
            forall|i: int|
                0 <= i < self.neurons().len() ==> final(graph)@[(#[trigger] output_indices(
                    out,
                )[i]) as int].data == neuron_value(
                    old(graph)@,
                    self.neurons()[i].handles(),
                    self.neurons()[i].is_relu(),
                    indices(x@),
                ),
    {
        ModelOutput::Vector(self.forward(graph, x))
    }

    /// The evaluation itself, with the outputs as a row of handles.
    pub fn forward<V: Number>(&self, graph: &mut ScalarGraph<V>, x: &[Scalar]) -> (out: Vec<Scalar>)
        requires
            old(graph).well_formed(),
            self.accepts(old(graph)@.len(), indices(x@)),
        ensures
            final(graph)@ == layer_state(
                old(graph)@,
                self.neurons(),
                indices(x@),
                self.neurons().len(),
            ).0,
            indices(out@) == layer_state(
                old(graph)@,
                self.neurons(),
                indices(x@),
                self.neurons().len(),
            ).1,
            final(graph).well_formed(),
            out@.len() == self.neurons().len(),
            old(graph)@.is_prefix_of(final(graph)@),
            all_below(indices(out@), final(graph)@.len()),
            forall|i: int|
                0 <= i < self.neurons().len() ==> final(graph)@[(#[trigger] indices(
                    out@,
                )[i]) as int].data == neuron_value(
                    old(graph)@,
                    self.neurons()[i].handles(),
                    self.neurons()[i].is_relu(),
                    indices(x@),
                ),
    {
        let ghost start = graph@;
        let ghost xs = indices(x@);
        let mut out: Vec<Scalar> = Vec::new();
        let mut k: usize = 0;
        proof {
            assert(indices(out@) =~= Seq::<usize>::empty());
        }
        while k < self.neurons.len()
            invariant
                k <= self.neurons.len(),
                xs == indices(x@),
                self.accepts(start.len(), xs),
                graph.well_formed(),
                start.is_prefix_of(graph@),
                out@.len() == k,
                all_below(indices(out@), graph@.len()),
                (graph@, indices(out@)) == layer_state(start, self.neurons(), xs, k as nat),
                forall|i: int|
                    0 <= i < k ==> graph@[(#[trigger] indices(out@)[i]) as int].data
                        == neuron_value(
                        start,
                        self.neurons()[i].handles(),
                        self.neurons()[i].is_relu(),
                        xs,
                    ),
            decreases self.neurons.len() - k,
        {
            let ghost before = indices(out@);
            let ghost here = graph@;
            let neuron = &self.neurons[k];
            proof {
                assert(self.neurons()[k as int].accepts(start.len(), xs));
                assert(all_below(neuron.handles(), graph@.len())) by {
                    assert forall|i: int| 0 <= i < neuron.handles().len() implies (
                    #[trigger] neuron.handles()[i]) < graph@.len() by {
                        assert(neuron.handles()[i] < start.len());
                    }
                }
                assert(all_below(xs, graph@.len())) by {
                    assert forall|i: int| 0 <= i < xs.len() implies (#[trigger] xs[i])
                        < graph@.len() by {
                        assert(xs[i] < start.len());
                    }
                }
            }
            let s = neuron.forward(graph, x);
            out.push(s);
            proof {
                assert(indices(out@) =~= before.push(s@));
                assert forall|i: int| 0 <= i < indices(out@).len() implies (#[trigger] indices(
                    out@,
                )[i]) < graph@.len() by {
                    if i < before.len() {
                        assert(before[i] == indices(out@)[i]);
                    }
                }
                lemma_neuron_value_in_longer(
                    start,
                    here,
                    neuron.handles(),
                    neuron.is_relu(),
                    xs,
                );
                assert forall|i: int| 0 <= i < k + 1 implies graph@[(#[trigger] indices(
                    out@,
                )[i]) as int].data == neuron_value(
                    start,
                    self.neurons()[i].handles(),
                    self.neurons()[i].is_relu(),
                    xs,
                ) by {
                    if i < k {
                        assert(before[i] == indices(out@)[i]);
                        assert(before[i] < here.len());
                        assert(graph@[before[i] as int] == here[before[i] as int]);
                    }
                }
            }
            k += 1;
        }
        out
    }

    /// The handles of all parameters, one perceptron after the other.
    pub fn parameters(&self) -> (params: Vec<Scalar>)
        ensures
            indices(params@) == self.handles(),
    {
        let mut params: Vec<Scalar> = Vec::new();
        let mut k: usize = 0;
        proof {
            assert(indices(params@) =~= Seq::<usize>::empty());
        }
        while k < self.neurons.len()
            invariant
                k <= self.neurons.len(),
                indices(params@) == layer_handles(self.neurons(), k as nat),
            decreases self.neurons.len() - k,
        {
            let ghost before = params@;
            let mut more = self.neurons[k].parameters();
            let ghost added = more@;
            params.append(&mut more);
            proof {
                assert(indices(before + added) =~= indices(before) + indices(added));
            }
            k += 1;
        }
        params
    }

    /// Sets the gradient of every parameter to zero.
    pub fn zero_grad<V: Number>(&self, graph: &mut ScalarGraph<V>)
        requires
            old(graph).well_formed(),
            self.fits(old(graph)@.len()),
        ensures
            final(graph)@ == zeroed(old(graph)@, self.handles()),
            final(graph).well_formed(),
    {
        proof {
            lemma_layer_handles_below(self.neurons(), self.neurons().len(), graph@.len());
        }
        let params = self.parameters();
        zero_gradients(graph, &params)
    }
}

impl<V: Number> ScalarGraph<V> {
    /// A layer of `nout` perceptrons with `nin` weights each, whose
    /// parameters are new leaves with the values of `init` from place `start`
    /// on, one perceptron after the other.
    pub(crate) fn layer_from(
        &mut self,
        nin: usize,
        nout: usize,
        relu: bool,
        init: &[V],
        start: usize,
    ) -> (layer: Layer)
        requires
            old(self).well_formed(),
            start + nout * (nin + 1) <= init@.len(),
        ensures
            final(self)@ == with_leaves(
                old(self)@,
                init@.subrange(start as int, start + nout * (nin + 1)),
            ),
            final(self).well_formed(),
            is_layer_at(layer, old(self)@.len() as int, nin as int, nout as int, relu),
            layer.fits(final(self)@.len()),
    {
        let ghost before = self@;
        let total = init.len();
        let mut neurons: Vec<Neuron> = Vec::new();
        proof {
            assert(self@ =~= with_leaves(before, init@.subrange(start as int, start as int)));
        }
        if nout == 0 {
            proof {
                assert(nout * (nin + 1) == 0) by (nonlinear_arith)
                    requires
                        nout == 0,
                ;
            }
            return Layer { neurons };
        }
        proof {
            assert(nout * (nin + 1) >= nin + 1) by (nonlinear_arith)
                requires
                    nout >= 1,
                    nin >= 0,
            ;
        }
        let stride = nin + 1;
        let mut at = start;
        let mut j: usize = 0;
        while j < nout
            invariant
                j <= nout,
                stride == nin + 1,
                total == init@.len(),
                start + nout * stride <= init@.len(),
                at == start + j * stride,
                at <= init@.len(),
                self.well_formed(),
                self@ == with_leaves(before, init@.subrange(start as int, at as int)),
                neurons@.len() == j,
                forall|i: int| 0 <= i < j ==> (#[trigger] neurons@[i]).fits(self@.len()),
                forall|i: int|
                    0 <= i < j ==> (#[trigger] neurons@[i]).handles() == span(
                        before.len() + i * stride,
                        stride as int,
                    ) && neurons@[i].is_relu() == relu,
            decreases nout - j,
        {
            proof {
                assert((j + 1) * stride == j * stride + stride) by (nonlinear_arith);
                assert((j + 1) * stride <= nout * stride) by (nonlinear_arith)
                    requires
                        j + 1 <= nout,
                        stride >= 0,
                ;
                lemma_with_leaves_twice(before, init@, start as int, at as int, at + stride);
            }
            let ghost here = self@;
            let neuron = self.neuron_from(init, at, stride, relu);
            let ghost earlier = neurons@;
            neurons.push(neuron);
            proof {
                assert(here.len() == before.len() + j * stride);
                assert forall|i: int| 0 <= i < j + 1 implies (#[trigger] neurons@[i]).fits(
                    self@.len(),
                ) by {
                    if i < j {
                        assert(neurons@[i] == earlier[i]);
                        assert(earlier[i].fits(here.len()));
                        lemma_all_below_grows(earlier[i].handles(), here.len(), self@.len());
                    }
                }
                assert forall|i: int| 0 <= i < j + 1 implies (#[trigger] neurons@[i]).handles()
                    == span(before.len() + i * stride, stride as int) && neurons@[i].is_relu()
                    == relu by {
                    if i < j {
                        assert(neurons@[i] == earlier[i]);
                    }
                }
            }
            at = at + stride;
            j += 1;
        }
        Layer { neurons }
    }

    /// Creates a layer of `nout` perceptrons with `nin` weights each. Their
    /// parameters are new leaves with the values of `init`, one perceptron
    /// after the other, each taking its bias first.
    pub fn layer(&mut self, nin: usize, nout: usize, relu: bool, init: &[V]) -> (layer: Layer)
        requires
            old(self).well_formed(),
            init@.len() == nout * (nin + 1),
        ensures
            final(self)@ == with_leaves(old(self)@, init@),
            final(self).well_formed(),
            is_layer_at(layer, old(self)@.len() as int, nin as int, nout as int, relu),
            layer.fits(final(self)@.len()),
    {
        proof {
            assert(init@.subrange(0, init@.len() as int) =~= init@);
        }
        self.layer_from(nin, nout, relu, init, 0)
    }
}

} // verus!
