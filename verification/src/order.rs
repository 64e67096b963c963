//! The order in which a backward pass walks the graph: a depth-first
//! post-order from the root, in which every node follows its operands.

use vstd::prelude::*;
use std::collections::HashSet;
use crate::number::Number;
use crate::scalar::{is_dag, operands, Op, Scalar, ScalarData, ScalarGraph};

verus! {

broadcast use vstd::std_specs::hash::group_hash_axioms;

/// The depth-first post-order from `id`, appended to `done`: a node that
/// `done` already holds is skipped; otherwise its operands are visited in
/// order, and then the node itself is appended.
pub open spec fn post_order<V>(nodes: Seq<ScalarData<V>>, id: usize, done: Seq<usize>) -> Seq<
    usize,
>
    decreases id,
    when is_dag(nodes) && id < nodes.len()
{
    let ops = operands(nodes[id as int].op);
    if done.contains(id) {
        done
    } else if ops.len() == 0 {
        done.push(id)
    } else if ops.len() == 1 {
        post_order(nodes, ops[0], done).push(id)
    } else {
        post_order(nodes, ops[1], post_order(nodes, ops[0], done)).push(id)
    }
}

/// Visiting from `id` only ever appends to `done`.
pub proof fn lemma_post_order_extends<V>(nodes: Seq<ScalarData<V>>, id: usize, done: Seq<usize>)
    requires
        is_dag(nodes),
        id < nodes.len(),
    ensures
        done.is_prefix_of(post_order(nodes, id, done)),
    decreases id,
{
    let ops = operands(nodes[id as int].op);
    if done.contains(id) {
    } else if ops.len() == 0 {
    } else if ops.len() == 1 {
        lemma_post_order_extends(nodes, ops[0], done);
    } else {
        let first = post_order(nodes, ops[0], done);
        lemma_post_order_extends(nodes, ops[0], done);
        lemma_post_order_extends(nodes, ops[1], first);
    }
}

/// Whether `to` can be reached from `from` by following operands, in any
/// number of steps.
pub open spec fn reaches<V>(nodes: Seq<ScalarData<V>>, from: usize, to: usize) -> bool
    decreases from,
    when is_dag(nodes) && from < nodes.len()
{
    let ops = operands(nodes[from as int].op);
    ||| from == to
    ||| ops.len() >= 1 && reaches(nodes, ops[0], to)
    ||| ops.len() >= 2 && reaches(nodes, ops[1], to)
}

/// Whether `x` stands in `order` before position `p`.
pub open spec fn appears_before(order: Seq<usize>, x: usize, p: int) -> bool {
    exists|q: int| 0 <= q < p && q < order.len() && order[q] == x
}

/// `order` lists nodes of the graph, none of them twice, and each after all
/// of its operands.
pub open spec fn is_topological<V>(nodes: Seq<ScalarData<V>>, order: Seq<usize>) -> bool {
    &&& order.no_duplicates()
    &&& forall|p: int| 0 <= p < order.len() ==> #[trigger] order[p] < nodes.len()
    &&& forall|p: int, k: int|
        0 <= p < order.len() && 0 <= k < operands(nodes[order[p] as int].op).len()
            ==> appears_before(order, #[trigger] operands(nodes[order[p] as int].op)[k], p)
}

/// What a sequence holds stays in it when it grows.
proof fn lemma_prefix_contains(short: Seq<usize>, long: Seq<usize>)
    requires
        short.is_prefix_of(long),
    ensures
        forall|j: usize| short.contains(j) ==> long.contains(j),
{
    assert forall|j: usize| short.contains(j) implies long.contains(j) by {
        let p = choose|p: int| 0 <= p < short.len() && short[p] == j;
        assert(long[p] == j);
    }
}

/// Appending adds exactly the appended item.
proof fn lemma_push_contains(s: Seq<usize>, x: usize)
    ensures
        forall|j: usize| #[trigger] s.push(x).contains(j) <==> s.contains(j) || j == x,
{
    assert forall|j: usize| s.push(x).contains(j) <==> s.contains(j) || j == x by {
        if s.push(x).contains(j) {
            let p = choose|p: int| 0 <= p < s.push(x).len() && s.push(x)[p] == j;
            if p < s.len() {
                assert(s[p] == j);
            }
        }
        if s.contains(j) {
            let p = choose|p: int| 0 <= p < s.len() && s[p] == j;
            assert(s.push(x)[p] == j);
        }
        if j == x {
            assert(s.push(x)[s.len() as int] == j);
        }
    }
}

/// Following operands never leads to a later node.
pub proof fn lemma_reaches_earlier<V>(nodes: Seq<ScalarData<V>>, from: usize, to: usize)
    requires
        is_dag(nodes),
        from < nodes.len(),
        reaches(nodes, from, to),
    ensures
        to <= from,
    decreases from,
{
    let ops = operands(nodes[from as int].op);
    if from == to {
    } else if ops.len() >= 1 && reaches(nodes, ops[0], to) {
        lemma_reaches_earlier(nodes, ops[0], to);
    } else {
        lemma_reaches_earlier(nodes, ops[1], to);
    }
}

/// A topological order that holds a node holds all that the node reaches.
pub proof fn lemma_topological_closed<V>(
    nodes: Seq<ScalarData<V>>,
    order: Seq<usize>,
    from: usize,
    to: usize,
)
    requires
        is_dag(nodes),
        is_topological(nodes, order),
        order.contains(from),
        reaches(nodes, from, to),
    ensures
        order.contains(to),
    decreases from,
{
    let p = choose|p: int| 0 <= p < order.len() && order[p] == from;
    let ops = operands(nodes[from as int].op);
    if from == to {
    } else if ops.len() >= 1 && reaches(nodes, ops[0], to) {
        assert(appears_before(order, ops[0], p));
        lemma_topological_closed(nodes, order, ops[0], to);
    } else {
        assert(appears_before(order, ops[1], p));
        lemma_topological_closed(nodes, order, ops[1], to);
    }
}

/// A topological order stays one when a new node is appended whose operands
/// it already holds.
proof fn lemma_push_topological<V>(nodes: Seq<ScalarData<V>>, order: Seq<usize>, id: usize)
    requires
        is_topological(nodes, order),
        id < nodes.len(),
        !order.contains(id),
        forall|k: int|
            0 <= k < operands(nodes[id as int].op).len() ==> order.contains(
                #[trigger] operands(nodes[id as int].op)[k],
            ),
    ensures
        is_topological(nodes, order.push(id)),
{
    let longer = order.push(id);
    assert(longer.no_duplicates()) by {
        assert forall|i: int, j: int|
            0 <= i < longer.len() && 0 <= j < longer.len() && i != j implies longer[i]
            != longer[j] by {
            if i < order.len() && j < order.len() {
            } else if i < order.len() {
                assert(order[i] != id);
            } else {
                assert(order[j] != id);
            }
        }
    }
    assert forall|p: int, k: int|
        0 <= p < longer.len() && 0 <= k < operands(
            nodes[longer[p] as int].op,
        ).len() implies appears_before(
        longer,
        #[trigger] operands(nodes[longer[p] as int].op)[k],
        p,
    ) by {
        let x = operands(nodes[longer[p] as int].op)[k];
        if p < order.len() {
            assert(longer[p] == order[p]);
            assert(appears_before(order, x, p));
            let q = choose|q: int| 0 <= q < p && q < order.len() && order[q] == x;
            assert(longer[q] == x);
        } else {
            assert(order.contains(x));
            let q = choose|q: int| 0 <= q < order.len() && order[q] == x;
            assert(longer[q] == x);
        }
    }
}

/// What the post-order from `id` adds to a topological order `done`: exactly
/// the nodes that `id` reaches and `done` lacks, so that the result is again
/// topological, and ends in `id` where `done` did not hold it.
pub proof fn lemma_post_order<V>(nodes: Seq<ScalarData<V>>, id: usize, done: Seq<usize>)
    requires
        is_dag(nodes),
        id < nodes.len(),
        is_topological(nodes, done),
    ensures
        is_topological(nodes, post_order(nodes, id, done)),
        done.is_prefix_of(post_order(nodes, id, done)),
        forall|x: usize| #[trigger]
            post_order(nodes, id, done).contains(x) <==> done.contains(x) || reaches(nodes, id, x),
        !done.contains(id) ==> post_order(nodes, id, done).len() > 0 && post_order(
            nodes,
            id,
            done,
        ).last() == id,
    decreases id,
{
    let ops = operands(nodes[id as int].op);
    let r = post_order(nodes, id, done);
    if done.contains(id) {
        assert forall|x: usize| reaches(nodes, id, x) implies done.contains(x) by {
            lemma_topological_closed(nodes, done, id, x);
        }
    } else if ops.len() == 0 {
        lemma_push_topological(nodes, done, id);
        lemma_push_contains(done, id);
    } else if ops.len() == 1 {
        let first = post_order(nodes, ops[0], done);
        lemma_post_order(nodes, ops[0], done);
        if reaches(nodes, ops[0], id) {
            lemma_reaches_earlier(nodes, ops[0], id);
        }
        assert(first.contains(ops[0]));
        lemma_push_topological(nodes, first, id);
        lemma_push_contains(first, id);
    } else {
        let first = post_order(nodes, ops[0], done);
        let second = post_order(nodes, ops[1], first);
        lemma_post_order(nodes, ops[0], done);
        lemma_post_order(nodes, ops[1], first);
        if reaches(nodes, ops[0], id) {
            lemma_reaches_earlier(nodes, ops[0], id);
        }
        if reaches(nodes, ops[1], id) {
            lemma_reaches_earlier(nodes, ops[1], id);
        }
        assert(second.contains(ops[0]));
        assert(second.contains(ops[1]));
        assert(ops.len() == 2);
        lemma_push_topological(nodes, second, id);
        lemma_push_contains(second, id);
    }
}

/// Distinct indices below a bound are at most as many as the bound.
proof fn lemma_distinct_below(s: Seq<usize>, bound: nat)
    requires
        s.no_duplicates(),
        forall|i: int| 0 <= i < s.len() ==> #[trigger] s[i] < bound,
    ensures
        s.len() <= bound,
    decreases bound,
{
    if s.len() == 0 {
    } else if bound == 0 {
        assert(s[0] < bound);
    } else {
        let top = (bound - 1) as nat;
        if exists|p: int| 0 <= p < s.len() && s[p] == top {
            let p = choose|p: int| 0 <= p < s.len() && s[p] == top;
            let rest = s.remove(p);
            assert forall|i: int| 0 <= i < rest.len() implies #[trigger] rest[i] < top by {
                if i < p {
                    assert(rest[i] == s[i]);
                } else {
                    assert(rest[i] == s[i + 1]);
                }
            }
            assert forall|i: int, j: int|
                0 <= i < rest.len() && 0 <= j < rest.len() && i != j implies rest[i]
                != rest[j] by {
                let a = if i < p { i } else { i + 1 };
                let b = if j < p { j } else { j + 1 };
                assert(rest[i] == s[a] && rest[j] == s[b]);
            }
            lemma_distinct_below(rest, top);
        } else {
            assert forall|i: int| 0 <= i < s.len() implies #[trigger] s[i] < top by {
                assert(s[i] < bound);
            }
            lemma_distinct_below(s, top);
        }
    }
}

/// The order that a backward pass from `root` walks is topological: every
/// operand stands before the node that uses it. It holds each node that
/// `root` reaches once and no other node, ends in `root`, and is no longer
/// than the number of nodes up to `root`.
pub proof fn lemma_topo_order<V>(nodes: Seq<ScalarData<V>>, root: usize)
    requires
        is_dag(nodes),
        root < nodes.len(),
    ensures
        is_topological(nodes, post_order(nodes, root, Seq::empty())),
        forall|x: usize| #[trigger]
            post_order(nodes, root, Seq::empty()).contains(x) <==> reaches(nodes, root, x),
        1 <= post_order(nodes, root, Seq::empty()).len() <= root + 1,
        post_order(nodes, root, Seq::empty()).last() == root,
{
    let order = post_order(nodes, root, Seq::empty());
    lemma_post_order(nodes, root, Seq::empty());
    assert forall|i: int| 0 <= i < order.len() implies #[trigger] order[i] < root + 1 by {
        assert(order.contains(order[i]));
        lemma_reaches_earlier(nodes, root, order[i]);
    }
    lemma_distinct_below(order, (root + 1) as nat);
}

fn dfs<V: Number>(
    graph: &ScalarGraph<V>,
    id: usize,
    sort: &mut Vec<usize>,
    visited: &mut HashSet<usize>,
)
    requires
        graph.well_formed(),
        id < graph@.len(),
        forall|j: usize| old(sort)@.contains(j) ==> old(visited)@.contains(j),
        forall|j: usize| j <= id && old(visited)@.contains(j) ==> old(sort)@.contains(j),
    ensures
        final(sort)@ == post_order(graph@, id, old(sort)@),
        forall|j: usize|
            final(visited)@.contains(j) <==> old(visited)@.contains(j) || final(sort)@.contains(j),
    decreases id,
{
    if !visited.contains(&id) {
        visited.insert(id);
        let ghost ops = operands(graph@[id as int].op);
        let ghost sort0 = sort@;
        match graph.node(id).op {
            Op::Add(s, o) => {
                proof {
                    assert(ops[0] == s && ops[1] == o);
                    lemma_post_order_extends(graph@, s, sort0);
                    lemma_prefix_contains(sort0, post_order(graph@, s, sort0));
                }
                dfs(graph, s, sort, visited);
                proof {
                    lemma_post_order_extends(graph@, o, sort@);
                    lemma_prefix_contains(sort@, post_order(graph@, o, sort@));
                }
                dfs(graph, o, sort, visited);
            },
            Op::Mul(s, o) => {
                proof {
                    assert(ops[0] == s && ops[1] == o);
                    lemma_post_order_extends(graph@, s, sort0);
                    lemma_prefix_contains(sort0, post_order(graph@, s, sort0));
                }
                dfs(graph, s, sort, visited);
                proof {
                    lemma_post_order_extends(graph@, o, sort@);
                    lemma_prefix_contains(sort@, post_order(graph@, o, sort@));
                }
                dfs(graph, o, sort, visited);
            },
            Op::Pow(s, _) => {
                proof {
                    assert(ops[0] == s);
                    lemma_post_order_extends(graph@, s, sort0);
                    lemma_prefix_contains(sort0, post_order(graph@, s, sort0));
                }
                dfs(graph, s, sort, visited);
            },
            Op::ReLU(s) => {
                proof {
                    assert(ops[0] == s);
                    lemma_post_order_extends(graph@, s, sort0);
                    lemma_prefix_contains(sort0, post_order(graph@, s, sort0));
                }
                dfs(graph, s, sort, visited);
            },
            Op::Leaf => {},
        }
        proof {
            lemma_push_contains(sort@, id);
            lemma_prefix_contains(sort0, sort@);
        }
        sort.push(id);
    }
}

impl Scalar {
    /// The nodes that this one depends on, itself included and last, each
    /// once and after its operands.
    pub fn topo<V: Number>(&self, graph: &ScalarGraph<V>) -> (sort: Vec<usize>)
        requires
            graph.well_formed(),
            graph.holds(*self),
        ensures
            sort@ == post_order(graph@, self@, Seq::<usize>::empty()),
            is_topological(graph@, sort@),
            forall|x: usize| #[trigger] sort@.contains(x) <==> reaches(graph@, self@, x),
            1 <= sort@.len() <= self@ + 1,
            sort@.last() == self@,
    {
        proof {
            lemma_topo_order(graph@, self@);
        }
        let mut sort = Vec::new();
        let mut visited = HashSet::new();
        dfs(graph, self.index(), &mut sort, &mut visited);
        sort
    }
}

} // verus!
