//! A multi-layer perceptron.

use vstd::prelude::*;
use crate::nn::layer::{is_layer_at, layer_state, lemma_layer_handles_below, Layer};
use crate::nn::neuron::neuron_value;
use crate::nn::rows::{
    all_below, indices, lemma_all_below_grows, lemma_with_leaves_twice, output_indices, row_fits,
    with_leaves, zero_gradients, zeroed, ModelOutput,
};
use crate::number::Number;
use crate::scalar::{Scalar, ScalarData, ScalarGraph};

verus! {

/// The nodes, and the row handed on, after the first `l` of `layers` were
/// evaluated, the first on `x` and each later one on the outputs of the
/// layer before it.
pub open spec fn mlp_state<V: Number>(
    nodes: Seq<ScalarData<V>>,
    layers: Seq<Layer>,
    x: Seq<usize>,
    l: nat,
) -> (Seq<ScalarData<V>>, Seq<usize>)
    decreases l,
{
    if l == 0 {
        (nodes, x)
    } else {
        let (earlier, signal) = mlp_state(nodes, layers, x, (l - 1) as nat);
        let neurons = layers[l - 1].neurons();
        layer_state(earlier, neurons, signal, neurons.len())
    }
}

/// Whether the nodes `outputs` of `nodes` hold what the perceptrons of
/// `layer` give, each in its place, on the row `input.1` of the nodes
/// `input.0`.
pub open spec fn is_layer_output<V: Number>(
    nodes: Seq<ScalarData<V>>,
    outputs: Seq<usize>,
    layer: Layer,
    input: (Seq<ScalarData<V>>, Seq<usize>),
) -> bool {
    &&& outputs.len() == layer.neurons().len()
    &&& forall|j: int|
        0 <= j < outputs.len() ==> nodes[(#[trigger] outputs[j]) as int].data == neuron_value(
            input.0,
            layer.neurons()[j].handles(),
            layer.neurons()[j].is_relu(),
            input.1,
        )
}

/// The parameters of the first `l` of `layers`, one layer after the other.
pub open spec fn mlp_handles(layers: Seq<Layer>, l: nat) -> Seq<usize>
    decreases l,
{
    if l == 0 {
        Seq::empty()
    } else {
        mlp_handles(layers, (l - 1) as nat) + layers[l - 1].handles()
    }
}

/// Where each layer's parameters are nodes of the graph, so are the
/// parameters of all of them together.
proof fn lemma_mlp_handles_below(layers: Seq<Layer>, l: nat, len: nat)
    requires
        l <= layers.len(),
        forall|i: int| 0 <= i < layers.len() ==> (#[trigger] layers[i]).fits(len),
    ensures
        all_below(mlp_handles(layers, l), len),
    decreases l,
{
    if l > 0 {
        lemma_mlp_handles_below(layers, (l - 1) as nat, len);
        let earlier = mlp_handles(layers, (l - 1) as nat);
        let last = layers[l - 1].handles();
        assert(layers[l - 1].fits(len));
        lemma_layer_handles_below(layers[l - 1].neurons(), layers[l - 1].neurons().len(), len);
        assert forall|i: int| 0 <= i < (earlier + last).len() implies (#[trigger] (earlier
            + last)[i]) < len by {
            if i < earlier.len() {
                assert(earlier[i] < len);
            } else {
                assert(last[i - earlier.len()] < len);
            }
        }
    }
}

/// The number of inputs of layer `l` of a network with `nin` inputs and
/// layers of `nouts` perceptrons.
pub open spec fn input_width(nin: usize, nouts: Seq<usize>, l: int) -> int {
    if l == 0 {
        nin as int
    } else {
        nouts[l - 1] as int
    }
}

/// The number of parameters of the first `l` layers of such a network: each
/// perceptron has one weight for each input of its layer, and a bias.
pub open spec fn mlp_size(nin: usize, nouts: Seq<usize>, l: nat) -> int
    decreases l,
{
    if l == 0 {
        0
    } else {
        mlp_size(nin, nouts, (l - 1) as nat) + nouts[l - 1] * (input_width(nin, nouts, l - 1) + 1)
    }
}

proof fn lemma_mlp_size_grows(nin: usize, nouts: Seq<usize>, l: nat, m: nat)
    requires
        l <= m <= nouts.len(),
    ensures
        0 <= mlp_size(nin, nouts, l) <= mlp_size(nin, nouts, m),
    decreases m,
{
    if l < m {
        lemma_mlp_size_grows(nin, nouts, l, (m - 1) as nat);
        assert(nouts[m - 1] * (input_width(nin, nouts, m - 1) + 1) >= 0) by (nonlinear_arith)
            requires
                nouts[m - 1] >= 0,
                input_width(nin, nouts, m - 1) + 1 >= 0,
        ;
    } else if l > 0 {
        lemma_mlp_size_grows(nin, nouts, (l - 1) as nat, (l - 1) as nat);
        assert(nouts[l - 1] * (input_width(nin, nouts, l - 1) + 1) >= 0) by (nonlinear_arith)
            requires
                nouts[l - 1] >= 0,
                input_width(nin, nouts, l - 1) + 1 >= 0,
        ;
    }
}

/// The number of parameters of a network with `nin` inputs and layers of
/// `nouts` perceptrons, where that number is a `usize`.
pub fn parameter_count(nin: usize, nouts: &[usize]) -> (count: Option<usize>)
    ensures
        match count {
            Some(c) => c == mlp_size(nin, nouts@, nouts@.len()),
            None => mlp_size(nin, nouts@, nouts@.len()) > usize::MAX,
        },
{
    let mut total: usize = 0;
    let mut width: usize = nin;
    let mut l: usize = 0;
    while l < nouts.len()
        invariant
            l <= nouts@.len(),
            total == mlp_size(nin, nouts@, l as nat),
            width == input_width(nin, nouts@, l as int),
        decreases nouts@.len() - l,
    {
        let nout = nouts[l];
        proof {
            lemma_mlp_size_grows(nin, nouts@, (l + 1) as nat, nouts@.len());
        }
        if nout > 0 {
            if width == usize::MAX {
                proof {
                    assert(nout * (width + 1) > usize::MAX) by (nonlinear_arith)
                        requires
                            nout >= 1,
                            width + 1 > usize::MAX,
                    ;
                }
                return None;
            }
            let layer = match nout.checked_mul(width + 1) {
                Some(layer) => layer,
                None => {
                    return None;
                },
            };
            total =
            match total.checked_add(layer) {
                Some(sum) => sum,
                None => {
                    return None;
                },
            };
        } else {
            proof {
                assert(nout * (width + 1) == 0) by (nonlinear_arith)
                    requires
                        nout == 0,
                ;
            }
        }
        width = nout;
        l += 1;
    }
    Some(total)
}

/// A multi-layer perceptron: layers evaluated one after the other, each on
/// the outputs of the one before.
#[derive(Debug)]
pub struct MLP {
    layers: Vec<Layer>,
}

impl MLP {
    /// The layers, in order.
    pub closed spec fn layers(&self) -> Seq<Layer> {
        self.layers@
    }

    /// The node indices of all parameters, one layer after the other.
    pub open spec fn handles(&self) -> Seq<usize> {
        mlp_handles(self.layers(), self.layers().len())
    }

    /// Whether all parameters are nodes of a graph of `len` nodes.
    pub open spec fn fits(&self, len: nat) -> bool {
        forall|l: int| 0 <= l < self.layers().len() ==> (#[trigger] self.layers()[l]).fits(len)
    }

    /// Whether the network can be evaluated on `x` in a graph of `len`
    /// nodes: `x` and all parameters are nodes of the graph, every
    /// perceptron has at least one weight, and every layer that has a
    /// perceptron is handed at least one input.
    pub open spec fn accepts(&self, len: nat, x: Seq<usize>) -> bool {
        &&& all_below(x, len)
        &&& self.fits(len)
        &&& forall|l: int, j: int|
            0 <= l < self.layers().len() && 0 <= j < self.layers()[l].neurons().len() ==> (
            #[trigger] self.layers()[l].neurons()[j]).handles().len() >= 2
        &&& forall|l: int|
            0 <= l < self.layers().len() && (#[trigger] self.layers()[l]).neurons().len() >= 1
                ==> if l == 0 {
                x.len() >= 1
            } else {
                self.layers()[l - 1].neurons().len() >= 1
            }
    }

    /// Whether the network can be evaluated on `x` in `graph`.
    pub fn can_call<V: Number>(&self, graph: &ScalarGraph<V>, x: &[Scalar]) -> (ok: bool)
        ensures
            ok == self.accepts(graph@.len(), indices(x@)),
    {
        if !row_fits(graph, x) {
            return false;
        }
        let mut width = x.len();
        let mut l: usize = 0;
        while l < self.layers.len()
            invariant
                l <= self.layers.len(),
                width == (if l == 0 {
                    x@.len()
                } else {
                    self.layers()[l - 1].neurons().len()
                }),
                forall|i: int| 0 <= i < l ==> (#[trigger] self.layers()[i]).fits(graph@.len()),
                forall|i: int, j: int|
                    0 <= i < l && 0 <= j < self.layers()[i].neurons().len() ==> (
                    #[trigger] self.layers()[i].neurons()[j]).handles().len() >= 2,
                forall|i: int|
                    0 <= i < l && (#[trigger] self.layers()[i]).neurons().len() >= 1 ==> if i
                        == 0 {
                        indices(x@).len() >= 1
                    } else {
                        self.layers()[i - 1].neurons().len() >= 1
                    },
            decreases self.layers.len() - l,
        {
            let layer = &self.layers[l];
            if !layer.is_sound(graph) {
                proof {
                    let witness = self.layers()[l as int];
                    if witness.fits(graph@.len()) {
                        let j = choose|j: int|
                            0 <= j < witness.neurons().len() && !((
                            #[trigger] witness.neurons()[j]).handles().len() >= 2);
                        assert(!(self.layers()[l as int].neurons()[j].handles().len() >= 2));
                    }
                }
                return false;
            }
            if layer.len() >= 1 && width < 1 {
                proof {
                    assert(self.layers()[l as int].neurons().len() >= 1);
                }
                return false;
            }
            width = layer.len();
            l += 1;
        }
        true
    }

    /// Evaluates the layers in order and returns the outputs of the last
    /// one; nothing where there is no layer.
    pub fn call<V: Number>(&self, graph: &mut ScalarGraph<V>, x: &[Scalar]) -> (out: ModelOutput)
        requires
            old(graph).well_formed(),
            self.accepts(old(graph)@.len(), indices(x@)),
        ensures
            final(graph)@ == mlp_state(
                old(graph)@,
                self.layers(),
                indices(x@),
                self.layers().len(),
            ).0,
            final(graph).well_formed(),
            old(graph)@.is_prefix_of(final(graph)@),
            self.layers().len() == 0 ==> out is Empty,
            self.layers().len() > 0 ==> out is Vector && output_indices(out) == mlp_state(
                old(graph)@,
                self.layers(),
                indices(x@),
                self.layers().len(),
            ).1,
            self.layers().len() > 0 ==> is_layer_output(
                final(graph)@,
                output_indices(out),
                self.layers()[self.layers().len() - 1],
                mlp_state(
                    old(graph)@,
                    self.layers(),
                    indices(x@),
                    (self.layers().len() - 1) as nat,
                ),
            ),
    {
        let ghost start = graph@;
        let ghost xs = indices(x@);
        let mut out = ModelOutput::Empty;
        let mut l: usize = 0;
        while l < self.layers.len()
            invariant
                l <= self.layers.len(),
                xs == indices(x@),
                self.accepts(start.len(), xs),
                graph.well_formed(),
                start.is_prefix_of(graph@),
                l == 0 ==> out is Empty,
                l > 0 ==> out is Vector,
                l > 0 ==> output_indices(out).len() == self.layers()[l - 1].neurons().len(),
                all_below(output_indices(out), graph@.len()),
                (graph@, if l == 0 {
                    xs
                } else {
                    output_indices(out)
                }) == mlp_state(start, self.layers(), xs, l as nat),
                l > 0 ==> is_layer_output(
                    graph@,
                    output_indices(out),
                    self.layers()[l - 1],
                    mlp_state(start, self.layers(), xs, (l - 1) as nat),
                ),
            decreases self.layers.len() - l,
        {
            let layer = &self.layers[l];
            let ghost signal = if l == 0 {
                xs
            } else {
                output_indices(out)
            };
            proof {
                let len = graph@.len();
                assert(all_below(signal, len)) by {
                    assert forall|i: int| 0 <= i < signal.len() implies (#[trigger] signal[i])
                        < len by {
                        if l == 0 {
                            assert(xs[i] < start.len());
                        }
                    }
                }
                assert(layer.accepts(len, signal)) by {
                    assert forall|j: int| 0 <= j < layer.neurons().len() implies (
                    #[trigger] layer.neurons()[j]).accepts(len, signal) by {
                        let handles = self.layers()[l as int].neurons()[j].handles();
                        assert(self.layers()[l as int].fits(start.len()));
                        assert(self.layers()[l as int].neurons()[j].fits(start.len()));
                        assert(handles.len() >= 2 && all_below(handles, start.len()));
                        assert(self.layers()[l as int].neurons().len() >= 1);
                        assert forall|i: int| 0 <= i < handles.len() implies (
                        #[trigger] handles[i]) < len by {
                            assert(handles[i] < start.len());
                        }
                    }
                }
            }
            out =
            match out {
                ModelOutput::Scalar(s) => {
                    let one = vec![s];
                    layer.call(graph, one.as_slice())
                },
                ModelOutput::Vector(v) => layer.call(graph, v.as_slice()),
                ModelOutput::Empty => layer.call(graph, x),
            };
            l += 1;
        }
        out
    }

    /// The handles of all parameters, one layer after the other.
    pub fn parameters(&self) -> (params: Vec<Scalar>)
        ensures
            indices(params@) == self.handles(),
    {
        let mut params: Vec<Scalar> = Vec::new();
        let mut l: usize = 0;
        proof {
            assert(indices(params@) =~= Seq::<usize>::empty());
        }
        while l < self.layers.len()
            invariant
                l <= self.layers.len(),
                indices(params@) == mlp_handles(self.layers(), l as nat),
            decreases self.layers.len() - l,
        {
            let ghost before = params@;
            let mut more = self.layers[l].parameters();
            let ghost added = more@;
            params.append(&mut more);
            proof {
                assert(indices(before + added) =~= indices(before) + indices(added));
            }
            l += 1;
        }
        params
    }

    /// Sets the gradient of every parameter to zero.
    pub fn zero_grad<V: Number>(&self, graph: &mut ScalarGraph<V>)
        requires
            old(graph).well_formed(),
            self.fits(old(graph)@.len()),
        ensures
            final(graph)@ == zeroed(old(graph)@, self.handles()),
            final(graph).well_formed(),
    {
        proof {
            lemma_mlp_handles_below(self.layers(), self.layers().len(), graph@.len());
        }
        let params = self.parameters();
        zero_gradients(graph, &params)
    }
}

impl<V: Number> ScalarGraph<V> {
    /// Creates a network with `nin` inputs and one layer of `nouts[l]`
    /// perceptrons for each `l`, every layer taking the outputs of the one
    /// before it. With `relu` set, all layers but the last apply the
    /// rectifier. The parameters are new leaves with the values of `init`,
    /// one layer after the other.
    pub fn mlp(&mut self, nin: usize, nouts: &[usize], relu: bool, init: &[V]) -> (mlp: MLP)
        requires
            old(self).well_formed(),
            init@.len() == mlp_size(nin, nouts@, nouts@.len()),
        ensures
            final(self)@ == with_leaves(old(self)@, init@),
            final(self).well_formed(),
            mlp.layers().len() == nouts@.len(),
            mlp.fits(final(self)@.len()),
            forall|l: int|
                0 <= l < nouts@.len() ==> is_layer_at(
                    #[trigger] mlp.layers()[l],
                    old(self)@.len() + mlp_size(nin, nouts@, l as nat),
                    input_width(nin, nouts@, l),
                    nouts@[l] as int,
                    relu && l != nouts@.len() - 1,
                ),
    {
        let ghost before = self@;
        let total = init.len();
        let mut layers: Vec<Layer> = Vec::new();
        let mut width = nin;
        let mut at: usize = 0;
        let mut l: usize = 0;
        proof {
            assert(self@ =~= with_leaves(before, init@.subrange(0, 0)));
        }
        while l < nouts.len()
            invariant
                l <= nouts@.len(),
                total == init@.len(),
                init@.len() == mlp_size(nin, nouts@, nouts@.len()),
                width == input_width(nin, nouts@, l as int),
                at == mlp_size(nin, nouts@, l as nat),
                at <= init@.len(),
                self.well_formed(),
                self@ == with_leaves(before, init@.subrange(0, at as int)),
                layers@.len() == l,
                forall|i: int| 0 <= i < l ==> (#[trigger] layers@[i]).fits(self@.len()),
                forall|i: int|
                    0 <= i < l ==> is_layer_at(
                        #[trigger] layers@[i],
                        before.len() + mlp_size(nin, nouts@, i as nat),
                        input_width(nin, nouts@, i),
                        nouts@[i] as int,
                        relu && i != nouts@.len() - 1,
                    ),
            decreases nouts@.len() - l,
        {
            let nout = nouts[l];
            let rectify = (l != nouts.len() - 1) && relu;
            let ghost step = nout * (width + 1);
            proof {
                lemma_mlp_size_grows(nin, nouts@, (l + 1) as nat, nouts@.len());
                assert(step >= 0) by (nonlinear_arith)
                    requires
                        step == nout * (width + 1),
                        nout >= 0,
                        width >= 0,
                ;
                lemma_with_leaves_twice(before, init@, 0, at as int, at + step);
            }
            let ghost here = self@;
            let layer = self.layer_from(width, nout, rectify, init, at);
            let ghost earlier = layers@;
            layers.push(layer);
            proof {
                assert forall|i: int| 0 <= i < l + 1 implies (#[trigger] layers@[i]).fits(
                    self@.len(),
                ) by {
                    if i < l {
                        assert(layers@[i] == earlier[i]);
                        assert(earlier[i].fits(here.len()));
                        assert forall|k: int| 0 <= k < earlier[i].neurons().len() implies (
                        #[trigger] earlier[i].neurons()[k]).fits(self@.len()) by {
                            assert(earlier[i].neurons()[k].fits(here.len()));
                            lemma_all_below_grows(
                                earlier[i].neurons()[k].handles(),
                                here.len(),
                                self@.len(),
                            );
                        }
                    }
                }
                assert forall|i: int| 0 <= i < l + 1 implies is_layer_at(
                    #[trigger] layers@[i],
                    before.len() + mlp_size(nin, nouts@, i as nat),
                    input_width(nin, nouts@, i),
                    nouts@[i] as int,
                    relu && i != nouts@.len() - 1,
                ) by {
                    if i < l {
                        assert(layers@[i] == earlier[i]);
                    }
                }
            }
            if nout > 0 {
                proof {
                    assert(step >= width + 1) by (nonlinear_arith)
                        requires
                            step == nout * (width + 1),
                            nout >= 1,
                            width >= 0,
                    ;
                }
                at = at + nout * (width + 1);
            } else {
                proof {
                    assert(step == 0) by (nonlinear_arith)
                        requires
                            step == nout * (width + 1),
                            nout == 0,
                    ;
                }
            }
            width = nout;
            l += 1;
        }
        proof {
            assert(init@.subrange(0, init@.len() as int) =~= init@);
        }
        MLP { layers }
    }
}

} // verus!
