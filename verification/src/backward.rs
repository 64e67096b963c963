//! The backward pass: each node hands its gradient on to its operands by the
//! rule of its operation, walking the topological order from the root down.

use vstd::prelude::*;
use crate::number::Number;
use crate::order::{appears_before, is_topological, lemma_topo_order, post_order, reaches};
use crate::scalar::{is_dag, operands, Op, Scalar, ScalarData, ScalarGraph};

verus! {

/// The nodes with `amount` added to the gradient of node `target`.
pub open spec fn accumulate<V: Number>(
    nodes: Seq<ScalarData<V>>,
    target: usize,
    amount: V,
) -> Seq<ScalarData<V>> {
    let node = nodes[target as int];
    nodes.update(
        target as int,
        ScalarData { data: node.data, grad: node.grad.plus_spec(amount), op: node.op },
    )
}

/// The local rule of node `id`: for each operand, in order, the amount that
/// the node adds to the operand's gradient, given its own gradient `g`.
///
/// | operation   | amounts                                  |
/// |-------------|------------------------------------------|
/// | `Add(s, o)` | `g` to `s`, `g` to `o`                   |
/// | `Mul(s, o)` | `o.data * g` to `s`, `s.data * g` to `o` |
/// | `Pow(s, k)` | `(k * s.data^(k - 1)) * g` to `s`        |
/// | `ReLU(s)`   | `g` to `s` if the node's value is positive, else zero |
pub open spec fn local_gradients<V: Number>(nodes: Seq<ScalarData<V>>, id: usize) -> Seq<
    (usize, V),
> {
    let node = nodes[id as int];
    let g = node.grad;
    match node.op {
        Op::Leaf => seq![],
        Op::Add(s, o) => seq![(s, g), (o, g)],
        Op::Mul(s, o) => seq![
            (s, nodes[o as int].data.times_spec(g)),
            (o, nodes[s as int].data.times_spec(g)),
        ],
        Op::Pow(s, k) => seq![
            (
                s,
                k.times_spec(nodes[s as int].data.pow_spec(k.minus_spec(V::one_spec()))).times_spec(
                    g,
                ),
            ),
        ],
        Op::ReLU(s) => seq![(s, if node.data.is_positive_spec() { g } else { V::zero_spec() })],
    }
}

/// The nodes after each amount of `shares` was added, in order, to the
/// gradient of the node it is meant for.
pub open spec fn deposit<V: Number>(nodes: Seq<ScalarData<V>>, shares: Seq<(usize, V)>) -> Seq<
    ScalarData<V>,
>
    decreases shares.len(),
{
    if shares.len() == 0 {
        nodes
    } else {
        accumulate(deposit(nodes, shares.drop_last()), shares.last().0, shares.last().1)
    }
}

/// The nodes after node `id` applied its local rule.
pub open spec fn propagate<V: Number>(nodes: Seq<ScalarData<V>>, id: usize) -> Seq<
    ScalarData<V>,
> {
    deposit(nodes, local_gradients(nodes, id))
}

/// The nodes after the nodes at positions `n` and above of `order` applied
/// their local rules, the last position first.
pub open spec fn backward_pass<V: Number>(
    nodes: Seq<ScalarData<V>>,
    order: Seq<usize>,
    n: int,
) -> Seq<ScalarData<V>>
    decreases order.len() - n,
{
    if n >= order.len() {
        nodes
    } else {
        propagate(backward_pass(nodes, order, n + 1), order[n])
    }
}

/// The nodes with the gradient of `root` set to one.
pub open spec fn seeded<V: Number>(nodes: Seq<ScalarData<V>>, root: usize) -> Seq<ScalarData<V>> {
    let node = nodes[root as int];
    nodes.update(root as int, ScalarData { data: node.data, grad: V::one_spec(), op: node.op })
}

/// Two node lists that differ in gradients at most.
pub open spec fn same_shape<V>(a: Seq<ScalarData<V>>, b: Seq<ScalarData<V>>) -> bool {
    &&& a.len() == b.len()
    &&& forall|i: int|
        0 <= i < a.len() ==> (#[trigger] a[i]).data == b[i].data && a[i].op == b[i].op
}

proof fn lemma_deposit_one<V: Number>(nodes: Seq<ScalarData<V>>, a: (usize, V))
    ensures
        deposit(nodes, seq![a]) == accumulate(nodes, a.0, a.1),
{
    let shares = seq![a];
    assert(shares.drop_last() =~= Seq::empty());
    assert(deposit(nodes, shares.drop_last()) == nodes);
}

proof fn lemma_deposit_two<V: Number>(nodes: Seq<ScalarData<V>>, a: (usize, V), b: (usize, V))
    ensures
        deposit(nodes, seq![a, b]) == accumulate(accumulate(nodes, a.0, a.1), b.0, b.1),
{
    let shares = seq![a, b];
    assert(shares.drop_last() =~= seq![a]);
    lemma_deposit_one(nodes, a);
}

impl<V: Number> Op<V> {
    /// Applies the local rule of node `id`: adds to the gradient of each of
    /// its operands what the node's own gradient contributes.
    pub fn backward(graph: &mut ScalarGraph<V>, id: usize)
        requires
            old(graph).well_formed(),
            id < old(graph)@.len(),
        ensures
            final(graph)@ == propagate(old(graph)@, id),
            same_shape(old(graph)@, final(graph)@),
            final(graph).well_formed(),
    {
        let grad = graph.node(id).grad;
        let ghost before = graph@;
        proof {
            lemma_propagate(before, id);
            assert(forall|k: int|
                0 <= k < operands(before[id as int].op).len() ==> (#[trigger] operands(
                    before[id as int].op,
                )[k]) < id);
        }
        match graph.node(id).op {
            Op::Add(s, o) => {
                proof {
                    assert(operands(before[id as int].op)[0] == s);
                    assert(operands(before[id as int].op)[1] == o);
                    lemma_deposit_two(before, (s, grad), (o, grad));
                }
                let to_s = graph.node(s).grad.plus(grad);
                graph.node_mut(s).grad = to_s;
                let to_o = graph.node(o).grad.plus(grad);
                graph.node_mut(o).grad = to_o;
            },
            Op::Mul(s, o) => {
                let share_s = graph.node(o).data.times(grad);
                let share_o = graph.node(s).data.times(grad);
                proof {
                    assert(operands(before[id as int].op)[0] == s);
                    assert(operands(before[id as int].op)[1] == o);
                    lemma_deposit_two(before, (s, share_s), (o, share_o));
                }
                let to_s = graph.node(s).grad.plus(share_s);
                graph.node_mut(s).grad = to_s;
                let to_o = graph.node(o).grad.plus(share_o);
                graph.node_mut(o).grad = to_o;
            },
            Op::Pow(s, k) => {
                let share = k.times(graph.node(s).data.pow(k.minus(V::one()))).times(grad);
                proof {
                    assert(operands(before[id as int].op)[0] == s);
                    lemma_deposit_one(before, (s, share));
                }
                let to_s = graph.node(s).grad.plus(share);
                graph.node_mut(s).grad = to_s;
            },
            Op::ReLU(s) => {
                let share = if graph.node(id).data.is_positive() {
                    grad
                } else {
                    V::zero()
                };
                proof {
                    assert(operands(before[id as int].op)[0] == s);
                    lemma_deposit_one(before, (s, share));
                }
                let to_s = graph.node(s).grad.plus(share);
                graph.node_mut(s).grad = to_s;
            },
            Op::Leaf => {},
        }
    }
}

/// The amounts of `shares` that are meant for `target`, in order.
pub open spec fn shares_for<V>(shares: Seq<(usize, V)>, target: usize) -> Seq<V>
    decreases shares.len(),
{
    if shares.len() == 0 {
        Seq::empty()
    } else if shares.last().0 == target {
        shares_for(shares.drop_last(), target).push(shares.last().1)
    } else {
        shares_for(shares.drop_last(), target)
    }
}

/// `start` with each of `amounts` added to it, in order.
pub open spec fn sum_from<V: Number>(start: V, amounts: Seq<V>) -> V
    decreases amounts.len(),
{
    if amounts.len() == 0 {
        start
    } else {
        sum_from(start, amounts.drop_last()).plus_spec(amounts.last())
    }
}

/// All that the nodes at positions `n` and above of `order` hand to
/// `target`, in the order of the pass (the last position first), each node
/// sharing by its local rule from the gradient it has in `nodes`.
pub open spec fn inflow<V: Number>(
    nodes: Seq<ScalarData<V>>,
    order: Seq<usize>,
    n: int,
    target: usize,
) -> Seq<V>
    decreases order.len() - n,
{
    if n >= order.len() {
        Seq::empty()
    } else {
        inflow(nodes, order, n + 1, target) + shares_for(
            local_gradients(nodes, order[n]),
            target,
        )
    }
}

/// Adding one run of amounts and then another is adding the two runs joined.
proof fn lemma_sum_from_concat<V: Number>(start: V, first: Seq<V>, second: Seq<V>)
    ensures
        sum_from(sum_from(start, first), second) == sum_from(start, first + second),
    decreases second.len(),
{
    if second.len() == 0 {
        assert(first + second =~= first);
    } else {
        lemma_sum_from_concat(start, first, second.drop_last());
        assert((first + second).drop_last() =~= first + second.drop_last());
        assert((first + second).last() == second.last());
    }
}

/// Depositing changes gradients only, and each by the sum of the amounts
/// meant for it.
proof fn lemma_deposit<V: Number>(nodes: Seq<ScalarData<V>>, shares: Seq<(usize, V)>)
    requires
        forall|k: int| 0 <= k < shares.len() ==> (#[trigger] shares[k]).0 < nodes.len(),
    ensures
        same_shape(nodes, deposit(nodes, shares)),
        forall|t: usize|
            t < nodes.len() ==> (#[trigger] deposit(nodes, shares)[t as int]).grad == sum_from(
                nodes[t as int].grad,
                shares_for(shares, t),
            ),
    decreases shares.len(),
{
    if shares.len() == 0 {
    } else {
        let earlier = shares.drop_last();
        let last = shares.last();
        assert forall|k: int| 0 <= k < earlier.len() implies (#[trigger] earlier[k]).0
            < nodes.len() by {
            assert(earlier[k] == shares[k]);
        }
        lemma_deposit(nodes, earlier);
        let mid = deposit(nodes, earlier);
        assert(last == shares[shares.len() - 1]);
        assert(last.0 < nodes.len());
        assert forall|t: usize| t < nodes.len() implies (#[trigger] deposit(
            nodes,
            shares,
        )[t as int]).grad == sum_from(nodes[t as int].grad, shares_for(shares, t)) by {
            assert(mid[t as int].grad == sum_from(nodes[t as int].grad, shares_for(earlier, t)));
            if last.0 == t {
                assert(shares_for(shares, t).drop_last() =~= shares_for(earlier, t));
            }
        }
    }
}

/// The local rule of a node hands amounts to the node's operands, one each.
proof fn lemma_local_gradients_targets<V: Number>(nodes: Seq<ScalarData<V>>, id: usize)
    ensures
        local_gradients(nodes, id).len() == operands(nodes[id as int].op).len(),
        forall|k: int|
            0 <= k < local_gradients(nodes, id).len() ==> (#[trigger] local_gradients(
                nodes,
                id,
            )[k]).0 == operands(nodes[id as int].op)[k],
{
}

/// Nothing is meant for a node that is not among the targets.
proof fn lemma_shares_for_none<V>(shares: Seq<(usize, V)>, target: usize)
    requires
        forall|k: int| 0 <= k < shares.len() ==> (#[trigger] shares[k]).0 != target,
    ensures
        shares_for(shares, target) == Seq::<V>::empty(),
    decreases shares.len(),
{
    if shares.len() > 0 {
        let earlier = shares.drop_last();
        assert forall|k: int| 0 <= k < earlier.len() implies (#[trigger] earlier[k]).0
            != target by {
            assert(earlier[k] == shares[k]);
        }
        lemma_shares_for_none(earlier, target);
        assert(shares.last() == shares[shares.len() - 1]);
    }
}

/// One step of the pass changes gradients only, and those of the operands of
/// the stepping node only.
proof fn lemma_propagate<V: Number>(nodes: Seq<ScalarData<V>>, id: usize)
    requires
        is_dag(nodes),
        id < nodes.len(),
    ensures
        same_shape(nodes, propagate(nodes, id)),
        is_dag(propagate(nodes, id)),
        forall|t: usize|
            t < nodes.len() ==> (#[trigger] propagate(nodes, id)[t as int]).grad == sum_from(
                nodes[t as int].grad,
                shares_for(local_gradients(nodes, id), t),
            ),
        forall|t: usize|
            t < nodes.len() && (forall|k: int|
                0 <= k < operands(nodes[id as int].op).len() ==> operands(nodes[id as int].op)[k]
                    != t) ==> #[trigger] propagate(nodes, id)[t as int] == nodes[t as int],
{
    let shares = local_gradients(nodes, id);
    let after = propagate(nodes, id);
    lemma_local_gradients_targets(nodes, id);
    assert forall|k: int| 0 <= k < shares.len() implies (#[trigger] shares[k]).0
        < nodes.len() by {
        assert(operands(nodes[id as int].op)[k] < id);
    }
    lemma_deposit(nodes, shares);
    assert(is_dag(after)) by {
        assert forall|i: int, k: int|
            0 <= i < after.len() && 0 <= k < operands(after[i].op).len() implies (
        #[trigger] operands(after[i].op)[k]) < i by {
            assert(after[i].op == nodes[i].op);
            assert(operands(nodes[i].op)[k] < i);
        }
    }
    assert forall|t: usize|
        t < nodes.len() && (forall|k: int|
            0 <= k < operands(nodes[id as int].op).len() ==> operands(nodes[id as int].op)[k]
                != t) implies #[trigger] after[t as int] == nodes[t as int] by {
        assert forall|k: int| 0 <= k < shares.len() implies (#[trigger] shares[k]).0 != t by {
            assert(shares[k].0 == operands(nodes[id as int].op)[k]);
        }
        lemma_shares_for_none(shares, t);
        assert(after[t as int].grad == nodes[t as int].grad);
        assert(after[t as int].data == nodes[t as int].data);
        assert(after[t as int].op == nodes[t as int].op);
    }
}

/// Whether no node at a position `n` or above of `order` has `t` as an operand.
pub open spec fn is_no_operand_from<V>(
    nodes: Seq<ScalarData<V>>,
    order: Seq<usize>,
    n: int,
    t: usize,
) -> bool {
    forall|p: int, k: int|
        n <= p < order.len() && 0 <= k < operands(nodes[order[p] as int].op).len()
            ==> #[trigger] operands(nodes[order[p] as int].op)[k] != t
}

/// A pass changes gradients only.
proof fn lemma_pass_shape<V: Number>(nodes: Seq<ScalarData<V>>, order: Seq<usize>, n: int)
    requires
        is_dag(nodes),
        forall|p: int| 0 <= p < order.len() ==> #[trigger] order[p] < nodes.len(),
        0 <= n,
    ensures
        same_shape(nodes, backward_pass(nodes, order, n)),
        is_dag(backward_pass(nodes, order, n)),
    decreases order.len() - n,
{
    if n < order.len() {
        lemma_pass_shape(nodes, order, n + 1);
        let mid = backward_pass(nodes, order, n + 1);
        assert(order[n] < mid.len());
        lemma_propagate(mid, order[n]);
    }
}

/// A pass leaves alone every node that is an operand of none of the nodes
/// that take their step.
proof fn lemma_pass_keeps<V: Number>(
    nodes: Seq<ScalarData<V>>,
    order: Seq<usize>,
    n: int,
    t: usize,
)
    requires
        is_dag(nodes),
        forall|p: int| 0 <= p < order.len() ==> #[trigger] order[p] < nodes.len(),
        0 <= n,
        t < nodes.len(),
        is_no_operand_from(nodes, order, n, t),
    ensures
        backward_pass(nodes, order, n)[t as int] == nodes[t as int],
    decreases order.len() - n,
{
    if n < order.len() {
        lemma_pass_keeps(nodes, order, n + 1, t);
        lemma_pass_shape(nodes, order, n + 1);
        let mid = backward_pass(nodes, order, n + 1);
        let id = order[n];
        assert(id < mid.len());
        lemma_propagate(mid, id);
        assert(mid[id as int].op == nodes[id as int].op);
        assert forall|k: int| 0 <= k < operands(mid[id as int].op).len() implies operands(
            mid[id as int].op,
        )[k] != t by {
            assert(operands(nodes[order[n] as int].op)[k] != t);
        }
    }
}

/// What a node hands on depends on its own gradient and on values only.
proof fn lemma_local_gradients_same<V: Number>(
    a: Seq<ScalarData<V>>,
    b: Seq<ScalarData<V>>,
    id: usize,
)
    requires
        is_dag(a),
        same_shape(a, b),
        id < a.len(),
        a[id as int].grad == b[id as int].grad,
    ensures
        local_gradients(a, id) == local_gradients(b, id),
{
    let ops = operands(a[id as int].op);
    assert(a[id as int].op == b[id as int].op);
    assert(a[id as int].data == b[id as int].data);
    if ops.len() >= 1 {
        assert(ops[0] < id);
        assert(a[ops[0] as int].data == b[ops[0] as int].data);
    }
    if ops.len() >= 2 {
        assert(ops[1] < id);
        assert(a[ops[1] as int].data == b[ops[1] as int].data);
    }
}

/// The inflow from positions `n` and above is the same in two states that
/// agree on the gradients of the nodes at those positions.
proof fn lemma_inflow_same<V: Number>(
    a: Seq<ScalarData<V>>,
    b: Seq<ScalarData<V>>,
    order: Seq<usize>,
    n: int,
    target: usize,
)
    requires
        is_dag(a),
        same_shape(a, b),
        forall|p: int| 0 <= p < order.len() ==> #[trigger] order[p] < a.len(),
        0 <= n,
        forall|p: int|
            n <= p < order.len() ==> a[(#[trigger] order[p]) as int].grad
                == b[order[p] as int].grad,
    ensures
        inflow(a, order, n, target) == inflow(b, order, n, target),
    decreases order.len() - n,
{
    if n < order.len() {
        lemma_inflow_same(a, b, order, n + 1, target);
        assert(order[n] < a.len());
        lemma_local_gradients_same(a, b, order[n]);
    }
}

/// In a topological order no node at position `n` or above is an operand of
/// the node at position `n`.
proof fn lemma_later_is_no_operand<V>(
    nodes: Seq<ScalarData<V>>,
    order: Seq<usize>,
    n: int,
    p: int,
    k: int,
)
    requires
        is_topological(nodes, order),
        0 <= n <= p < order.len(),
        0 <= k < operands(nodes[order[n] as int].op).len(),
    ensures
        operands(nodes[order[n] as int].op)[k] != order[p],
{
    let x = operands(nodes[order[n] as int].op)[k];
    assert(appears_before(order, x, n));
    let q = choose|q: int| 0 <= q < n && q < order.len() && order[q] == x;
    assert(q != p);
}

/// The state after the nodes at positions `n` and above took their steps:
/// each gradient is what it was at the start plus, in the order of the pass,
/// what those nodes handed to it, each from the gradient it ended with.
pub proof fn lemma_gradient_from<V: Number>(
    nodes: Seq<ScalarData<V>>,
    order: Seq<usize>,
    n: int,
    target: usize,
)
    requires
        is_dag(nodes),
        is_topological(nodes, order),
        0 <= n <= order.len(),
        target < nodes.len(),
    ensures
        backward_pass(nodes, order, n)[target as int].grad == sum_from(
            nodes[target as int].grad,
            inflow(backward_pass(nodes, order, n), order, n, target),
        ),
    decreases order.len() - n,
{
    if n < order.len() {
        let id = order[n];
        let mid = backward_pass(nodes, order, n + 1);
        let after = backward_pass(nodes, order, n);
        lemma_gradient_from(nodes, order, n + 1, target);
        lemma_pass_shape(nodes, order, n + 1);
        assert(id < mid.len());
        lemma_propagate(mid, id);
        assert(mid[id as int].op == nodes[id as int].op);
        assert forall|p: int| n <= p < order.len() implies mid[(#[trigger] order[p]) as int].grad
            == after[order[p] as int].grad by {
            let t = order[p];
            assert forall|k: int| 0 <= k < operands(mid[id as int].op).len() implies operands(
                mid[id as int].op,
            )[k] != t by {
                lemma_later_is_no_operand(nodes, order, n, p, k);
            }
            assert(after[t as int] == mid[t as int]);
        }
        lemma_inflow_same(mid, after, order, n + 1, target);
        lemma_local_gradients_same(mid, after, id);
        lemma_sum_from_concat(
            nodes[target as int].grad,
            inflow(mid, order, n + 1, target),
            shares_for(local_gradients(mid, id), target),
        );
    }
}

/// An order that is topological for one state is so for every state of the
/// same shape.
proof fn lemma_topological_same_shape<V>(
    a: Seq<ScalarData<V>>,
    b: Seq<ScalarData<V>>,
    order: Seq<usize>,
)
    requires
        same_shape(a, b),
        is_topological(a, order),
    ensures
        is_topological(b, order),
{
    assert forall|p: int, k: int|
        0 <= p < order.len() && 0 <= k < operands(
            b[order[p] as int].op,
        ).len() implies appears_before(order, #[trigger] operands(b[order[p] as int].op)[k], p) by {
        assert(order[p] < a.len());
        assert(a[order[p] as int].op == b[order[p] as int].op);
        assert(appears_before(order, operands(a[order[p] as int].op)[k], p));
    }
}

/// Seeding changes one gradient and nothing else.
proof fn lemma_seeded<V: Number>(nodes: Seq<ScalarData<V>>, root: usize)
    requires
        is_dag(nodes),
        root < nodes.len(),
    ensures
        same_shape(nodes, seeded(nodes, root)),
        is_dag(seeded(nodes, root)),
{
    let start = seeded(nodes, root);
    assert forall|i: int, k: int|
        0 <= i < start.len() && 0 <= k < operands(start[i].op).len() implies (#[trigger] operands(
            start[i].op,
        )[k]) < i by {
        assert(start[i].op == nodes[i].op);
        assert(operands(nodes[i].op)[k] < i);
    }
}

/// What a backward pass from `root` leaves in the graph.
///
/// Values and operations are what they were. The gradient of `root` is one.
/// The gradient of any other node is what it was before the pass plus, in the
/// order of the pass, every amount that a node using it as an operand handed
/// to it; each such node hands on from its final gradient, once per operand
/// slot, so a node that several others use receives the sum of all of them.
/// A node that `root` does not reach is left as it was.
pub proof fn lemma_backward_accumulates<V: Number>(
    nodes: Seq<ScalarData<V>>,
    root: usize,
    target: usize,
)
    requires
        is_dag(nodes),
        root < nodes.len(),
        target < nodes.len(),
    ensures
        ({
            let order = post_order(nodes, root, Seq::empty());
            let start = seeded(nodes, root);
            let after = backward_pass(start, order, 0);
            &&& same_shape(nodes, after)
            &&& is_dag(after)
            &&& after[target as int].grad == sum_from(
                start[target as int].grad,
                inflow(after, order, 0, target),
            )
            &&& after[root as int].grad == V::one_spec()
            &&& !reaches(nodes, root, target) ==> after[target as int] == nodes[target as int]
        }),
{
    let order = post_order(nodes, root, Seq::empty());
    let start = seeded(nodes, root);
    let after = backward_pass(start, order, 0);
    lemma_topo_order(nodes, root);
    lemma_seeded(nodes, root);
    lemma_topological_same_shape(nodes, start, order);
    lemma_pass_shape(start, order, 0);
    lemma_gradient_from(start, order, 0, target);
    assert(is_no_operand_from(start, order, 0, root)) by {
        assert forall|p: int, k: int|
            0 <= p < order.len() && 0 <= k < operands(
                start[order[p] as int].op,
            ).len() implies #[trigger] operands(start[order[p] as int].op)[k] != root by {
            let x = operands(start[order[p] as int].op)[k];
            assert(appears_before(order, x, p));
            let q = choose|q: int| 0 <= q < p && q < order.len() && order[q] == x;
            assert(order[order.len() - 1] == root);
        }
    }
    lemma_pass_keeps(start, order, 0, root);
    if !reaches(nodes, root, target) {
        assert(!order.contains(target));
        assert(target != root) by {
            assert(order[order.len() - 1] == root);
        }
        assert(is_no_operand_from(start, order, 0, target)) by {
            assert forall|p: int, k: int|
                0 <= p < order.len() && 0 <= k < operands(
                    start[order[p] as int].op,
                ).len() implies #[trigger] operands(start[order[p] as int].op)[k] != target by {
                let x = operands(start[order[p] as int].op)[k];
                assert(appears_before(order, x, p));
                let q = choose|q: int| 0 <= q < p && q < order.len() && order[q] == x;
                assert(order.contains(x));
            }
        }
        lemma_pass_keeps(start, order, 0, target);
    }
}

impl Scalar {
    /// Runs a backward pass from this node: sets its gradient to one, then
    /// lets every node it depends on, itself first and each node before its
    /// operands, hand its gradient on to its operands.
    pub fn backward<V: Number>(&self, graph: &mut ScalarGraph<V>)
        requires
            old(graph).well_formed(),
            old(graph).holds(*self),
        ensures
            final(graph)@ == backward_pass(
                seeded(old(graph)@, self@),
                post_order(old(graph)@, self@, Seq::empty()),
                0,
            ),
            same_shape(old(graph)@, final(graph)@),
            final(graph).well_formed(),
            final(graph)@[self@ as int].grad == V::one_spec(),
            forall|t: usize|
                t < old(graph)@.len() ==> (#[trigger] final(graph)@[t as int]).grad == sum_from(
                    seeded(old(graph)@, self@)[t as int].grad,
                    inflow(
                        final(graph)@,
                        post_order(old(graph)@, self@, Seq::empty()),
                        0,
                        t,
                    ),
                ),
            forall|t: usize|
                t < old(graph)@.len() && !reaches(old(graph)@, self@, t) ==> (
                #[trigger] final(graph)@[t as int]) == old(graph)@[t as int],
    {
        let sorted = self.topo(graph);
        let ghost order = sorted@;
        let ghost before = graph@;
        let ghost start = seeded(graph@, self@);
        proof {
            lemma_seeded(before, self@);
            let after = backward_pass(start, order, 0);
            lemma_backward_accumulates(before, self@, self@);
            assert forall|t: usize| t < before.len() implies (#[trigger] after[t as int]).grad
                == sum_from(start[t as int].grad, inflow(after, order, 0, t)) && (!reaches(
                before,
                self@,
                t,
            ) ==> after[t as int] == before[t as int]) by {
                lemma_backward_accumulates(before, self@, t);
            }
        }
        self.set_grad(graph, V::one());
        let mut n = sorted.len();
        while n > 0
            invariant
                n <= sorted.len(),
                sorted@ == order,
                is_dag(start),
                forall|p: int| 0 <= p < order.len() ==> #[trigger] order[p] < start.len(),
                graph@ == backward_pass(start, order, n as int),
            decreases n,
        {
            n -= 1;
            proof {
                lemma_pass_shape(start, order, n + 1);
            }
            Op::backward(graph, sorted[n]);
        }
    }
}

} // verus!
