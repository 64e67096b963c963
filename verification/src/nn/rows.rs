//! Rows of handles: what a model takes, gives and holds as parameters.

use vstd::prelude::*;
use crate::number::Number;
use crate::scalar::{fresh, Op, Scalar, ScalarData, ScalarGraph};

verus! {

/// What evaluating a model gives.
#[derive(Debug)]
pub enum ModelOutput {
    /// Nothing: the model has no layer.
    Empty,
    /// One node.
    Scalar(Scalar),
    /// A row of nodes.
    Vector(Vec<Scalar>),
}

/// The node indices that a row of handles names.
pub open spec fn indices(handles: Seq<Scalar>) -> Seq<usize> {
    Seq::new(handles.len(), |i: int| handles[i]@)
}

/// The node indices that an output names: none, one, or a row.
pub open spec fn output_indices(out: ModelOutput) -> Seq<usize> {
    match out {
        ModelOutput::Empty => Seq::empty(),
        ModelOutput::Scalar(s) => seq![s@],
        ModelOutput::Vector(v) => indices(v@),
    }
}

/// Whether every index of `row` names one of `len` nodes.
pub open spec fn all_below(row: Seq<usize>, len: nat) -> bool {
    forall|i: int| 0 <= i < row.len() ==> #[trigger] row[i] < len
}

/// Indices that name nodes of a graph name nodes of every longer graph.
pub proof fn lemma_all_below_grows(row: Seq<usize>, len: nat, longer: nat)
    requires
        all_below(row, len),
        len <= longer,
    ensures
        all_below(row, longer),
{
    assert forall|i: int| 0 <= i < row.len() implies (#[trigger] row[i]) < longer by {
        assert(row[i] < len);
    }
}

/// Whether every handle of `row` names a node of `graph`.
pub fn row_fits<V: Number>(graph: &ScalarGraph<V>, row: &[Scalar]) -> (ok: bool)
    ensures
        ok == all_below(indices(row@), graph@.len()),
{
    let mut k: usize = 0;
    while k < row.len()
        invariant
            k <= row@.len(),
            forall|i: int| 0 <= i < k ==> (#[trigger] indices(row@)[i]) < graph@.len(),
        decreases row@.len() - k,
    {
        if !graph.has(row[k]) {
            proof {
                assert(!(indices(row@)[k as int] < graph@.len()));
            }
            return false;
        }
        k += 1;
    }
    true
}

/// The nodes with one more leaf for each of `values`, in order.
pub open spec fn with_leaves<V: Number>(nodes: Seq<ScalarData<V>>, values: Seq<V>) -> Seq<
    ScalarData<V>,
> {
    nodes + Seq::new(values.len(), |i: int| fresh(values[i], Op::Leaf))
}

/// The `count` indices from `start` on.
pub open spec fn span(start: int, count: int) -> Seq<usize> {
    Seq::new(count as nat, |i: int| (start + i) as usize)
}

/// Adding leaves in two runs is adding them in one.
pub(crate) proof fn lemma_with_leaves_twice<V: Number>(
    nodes: Seq<ScalarData<V>>,
    values: Seq<V>,
    from: int,
    mid: int,
    to: int,
)
    requires
        0 <= from <= mid <= to <= values.len(),
    ensures
        with_leaves(with_leaves(nodes, values.subrange(from, mid)), values.subrange(mid, to))
            == with_leaves(nodes, values.subrange(from, to)),
{
    assert(with_leaves(with_leaves(nodes, values.subrange(from, mid)), values.subrange(mid, to))
        =~= with_leaves(nodes, values.subrange(from, to)));
}

/// Whether `row` holds the index `i`.
pub open spec fn names(row: Seq<usize>, i: int) -> bool {
    exists|k: int| 0 <= k < row.len() && row[k] == i
}

/// The nodes with the gradient set to zero of each node that `params` names.
pub open spec fn zeroed<V: Number>(nodes: Seq<ScalarData<V>>, params: Seq<usize>) -> Seq<
    ScalarData<V>,
> {
    Seq::new(
        nodes.len(),
        |i: int|
            if names(params, i) {
                ScalarData { data: nodes[i].data, grad: V::zero_spec(), op: nodes[i].op }
            } else {
                nodes[i]
            },
    )
}

/// Sets to zero the gradient of every node that `params` names.
pub fn zero_gradients<V: Number>(graph: &mut ScalarGraph<V>, params: &Vec<Scalar>)
    requires
        old(graph).well_formed(),
        all_below(indices(params@), old(graph)@.len()),
    ensures
        final(graph)@ == zeroed(old(graph)@, indices(params@)),
        final(graph).well_formed(),
{
    let ghost start = graph@;
    let ghost all = indices(params@);
    let mut k: usize = 0;
    while k < params.len()
        invariant
            k <= params.len(),
            all == indices(params@),
            all_below(all, start.len()),
            graph.well_formed(),
            graph@ == zeroed(start, all.take(k as int)),
        decreases params.len() - k,
    {
        let ghost before = graph@;
        assert(all[k as int] < start.len());
        params[k].set_grad(graph, V::zero());
        proof {
            let id = all[k as int];
            let shorter = all.take(k as int);
            let longer = all.take(k + 1);
            assert forall|i: int| names(longer, i) <==> names(shorter, i) || i == id by {
                if names(longer, i) {
                    let q = choose|q: int| 0 <= q < longer.len() && longer[q] == i;
                    if q < k {
                        assert(shorter[q] == i);
                    }
                }
                if names(shorter, i) {
                    let q = choose|q: int| 0 <= q < shorter.len() && shorter[q] == i;
                    assert(longer[q] == i);
                }
                if i == id {
                    assert(longer[k as int] == i);
                }
            }
            assert forall|i: int| 0 <= i < start.len() implies graph@[i] == zeroed(
                start,
                longer,
            )[i] by {
                assert(before[i] == zeroed(start, shorter)[i]);
                assert(names(longer, i) <==> names(shorter, i) || i == id);
            }
            assert(graph@ =~= zeroed(start, longer));
        }
        k += 1;
    }
    proof {
        assert(all.take(params.len() as int) =~= all);
    }
}

} // verus!
