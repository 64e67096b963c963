use scalargrad::number::Number;
use scalargrad::scalar::{Op, ScalarGraph};

fn operands_of(graph: &ScalarGraph<i64>, id: usize) -> Vec<usize> {
    match graph.node(id).op {
        Op::Leaf => vec![],
        Op::Add(s, o) => vec![s, o],
        Op::Mul(s, o) => vec![s, o],
        Op::Pow(s, _) => vec![s],
        Op::ReLU(s) => vec![s],
    }
}

fn assert_topological(graph: &ScalarGraph<i64>, order: &[usize]) {
    for (p, id) in order.iter().enumerate() {
        assert!(!order[..p].contains(id), "node {} is listed twice", id);
        for operand in operands_of(graph, *id) {
            assert!(
                order[..p].contains(&operand),
                "operand {} does not precede node {}",
                operand,
                id
            );
        }
    }
}

#[test]
fn integers_wrap_around() {
    assert_eq!(<i64 as Number>::zero(), 0);
    assert_eq!(<i64 as Number>::one(), 1);
    assert_eq!(Number::plus(i64::MAX, 1), i64::MIN);
    assert_eq!(Number::minus(i64::MIN, 1), i64::MAX);
    assert_eq!(Number::times(i64::MAX, 2), -2);
    assert_eq!(Number::negate(5i64), -5);
    assert_eq!(Number::negate(i64::MIN), i64::MIN);
    assert!(Number::is_positive(1i64));
    assert!(!Number::is_positive(0i64));
    assert!(!Number::is_positive(-1i64));
}

#[test]
fn integer_powers() {
    assert_eq!(Number::pow(3i64, 0), 1);
    assert_eq!(Number::pow(3i64, 1), 3);
    assert_eq!(Number::pow(3i64, 4), 81);
    assert_eq!(Number::pow(-2i64, 3), -8);
    assert_eq!(Number::pow(2i64, 64), 0);
    assert_eq!(Number::pow(7i64, -1), 1);
    assert_eq!(Number::pow(0i64, 0), 1);
    assert_eq!(Number::pow(3i64, 40), 12157665459056928801u64 as i64);
    assert_eq!(Number::pow(3i64, 41), 3i64.wrapping_pow(41));
    assert_eq!(Number::pow(-7i64, 1_000_000_007), (-7i64).wrapping_pow(1_000_000_007));
    assert_eq!(Number::pow(1i64, i64::MAX), 1);
    assert_eq!(Number::pow(-1i64, i64::MAX), -1);
    assert_eq!(Number::pow(i64::MIN, 2), 0);
}

#[test]
fn leaf_starts_without_gradient() {
    let mut g: ScalarGraph<i64> = ScalarGraph::new();
    let a = g.scalar(5);
    assert_eq!(a.index(), 0);
    assert_eq!(a.data(&g), 5);
    assert_eq!(a.grad(&g), 0);
    assert!(matches!(g.node(0).op, Op::Leaf));
    assert_eq!(g.len(), 1);
}

#[test]
fn every_operation_adds_a_node_and_keeps_the_old_ones() {
    let mut g: ScalarGraph<i64> = ScalarGraph::new();
    let a = g.scalar(3);
    let b = g.scalar(4);
    let c = a.add(&mut g, b);
    let d = a.mul(&mut g, c);
    assert_eq!((a.index(), b.index(), c.index(), d.index()), (0, 1, 2, 3));
    assert_eq!(g.len(), 4);
    assert_eq!(a.data(&g), 3);
    assert_eq!(b.data(&g), 4);
    assert_eq!(c.data(&g), 7);
    assert_eq!(d.data(&g), 21);
    assert!(matches!(g.node(2).op, Op::Add(0, 1)));
    assert!(matches!(g.node(3).op, Op::Mul(0, 2)));
    assert_eq!(d.grad(&g), 0);
}

#[test]
fn shared_operand_receives_every_contribution() {
    let mut g: ScalarGraph<i64> = ScalarGraph::new();
    let a = g.scalar(3);
    let two = a.mul_value(&mut g, 2);
    let five = a.mul_value(&mut g, 5);
    let d = two.add(&mut g, five);
    assert_eq!(d.data(&g), 21);
    d.backward(&mut g);
    assert_eq!(a.grad(&g), 7);
    assert_eq!(two.grad(&g), 1);
    assert_eq!(five.grad(&g), 1);
    assert_eq!(d.grad(&g), 1);
}

#[test]
fn node_used_twice_by_one_operation() {
    let mut g: ScalarGraph<i64> = ScalarGraph::new();
    let a = g.scalar(5);
    let sum = a.add(&mut g, a);
    sum.backward(&mut g);
    assert_eq!(a.grad(&g), 2);

    let mut g: ScalarGraph<i64> = ScalarGraph::new();
    let a = g.scalar(5);
    let square = a.mul(&mut g, a);
    assert_eq!(square.data(&g), 25);
    square.backward(&mut g);
    assert_eq!(a.grad(&g), 10);
}

#[test]
fn gradient_through_two_levels_of_sharing() {
    // e = (a + b) * (a + b) + a, so de/da = 2 (a + b) + 1 and de/db = 2 (a + b)
    let mut g: ScalarGraph<i64> = ScalarGraph::new();
    let a = g.scalar(2);
    let b = g.scalar(5);
    let s = a.add(&mut g, b);
    let q = s.mul(&mut g, s);
    let e = q.add(&mut g, a);
    assert_eq!(e.data(&g), 51);
    e.backward(&mut g);
    assert_eq!(s.grad(&g), 14);
    assert_eq!(a.grad(&g), 15);
    assert_eq!(b.grad(&g), 14);
}

#[test]
fn power_rule() {
    let mut g: ScalarGraph<i64> = ScalarGraph::new();
    let a = g.scalar(2);
    let c = a.pow(&mut g, 3);
    assert_eq!(c.data(&g), 8);
    assert!(matches!(g.node(1).op, Op::Pow(0, 3)));
    c.backward(&mut g);
    assert_eq!(a.grad(&g), 12);
}

#[test]
fn rectifier_passes_gradient_where_the_value_is_positive() {
    let mut g: ScalarGraph<i64> = ScalarGraph::new();
    let a = g.scalar(4);
    let r = a.relu(&mut g);
    assert_eq!(r.data(&g), 4);
    r.backward(&mut g);
    assert_eq!(a.grad(&g), 1);

    let mut g: ScalarGraph<i64> = ScalarGraph::new();
    let a = g.scalar(-4);
    let r = a.relu(&mut g);
    assert_eq!(r.data(&g), 0);
    r.backward(&mut g);
    assert_eq!(a.grad(&g), 0);

    let mut g: ScalarGraph<i64> = ScalarGraph::new();
    let a = g.scalar(0);
    let r = a.relu(&mut g);
    assert_eq!(r.data(&g), 0);
    r.backward(&mut g);
    assert_eq!(a.grad(&g), 0);
}

#[test]
fn order_puts_operands_first_and_the_root_last() {
    let mut g: ScalarGraph<i64> = ScalarGraph::new();
    let a = g.scalar(2);
    let b = g.scalar(3);
    let unused = g.scalar(9);
    let c = a.mul(&mut g, b);
    let d = c.add(&mut g, a);
    let e = d.relu(&mut g);
    let f = e.mul(&mut g, c);
    let order = f.topo(&g);
    assert_eq!(
        order,
        vec![a.index(), b.index(), c.index(), d.index(), e.index(), f.index()]
    );
    assert_topological(&g, &order);
    assert_eq!(*order.last().unwrap(), f.index());
    assert!(!order.contains(&unused.index()));
}

#[test]
fn order_is_the_depth_first_post_order() {
    let mut g: ScalarGraph<i64> = ScalarGraph::new();
    let a = g.scalar(1);
    let b = g.scalar(2);
    let c = g.scalar(3);
    let bc = b.mul(&mut g, c);
    let abc = bc.add(&mut g, a);
    // the first operand of the sum is visited before the second
    assert_eq!(abc.topo(&g), vec![1, 2, 3, 0, 4]);
    assert_eq!(a.topo(&g), vec![0]);
    assert_eq!(bc.topo(&g), vec![1, 2, 3]);
}

#[test]
fn order_lists_each_reachable_node_once() {
    let mut g: ScalarGraph<i64> = ScalarGraph::new();
    let leaf = g.scalar(1);
    let mut node = leaf;
    // every level uses the level below twice: 2^40 paths, 41 nodes
    for _ in 0..40 {
        node = node.add(&mut g, node);
    }
    let order = node.topo(&g);
    assert_eq!(order, (0..41).collect::<Vec<usize>>());
    assert_topological(&g, &order);
    node.backward(&mut g);
    assert_eq!(g.node(0).grad, 1i64 << 40);
}

#[test]
fn order_of_a_long_chain() {
    let mut g: ScalarGraph<i64> = ScalarGraph::new();
    let mut node = g.scalar(1);
    for _ in 0..2000 {
        node = node.relu(&mut g);
    }
    let order = node.topo(&g);
    assert_eq!(order.len(), 2001);
    assert_eq!(order, (0..2001).collect::<Vec<usize>>());
}

#[test]
fn values_do_not_change() {
    let mut g: ScalarGraph<i64> = ScalarGraph::new();
    let a = g.scalar(6);
    let b = g.scalar(7);
    let c = a.mul(&mut g, b);
    let before = (a.data(&g), b.data(&g), c.data(&g));
    assert_eq!(before, (6, 7, 42));
    assert_eq!(c.data(&g), c.data(&g));
    c.backward(&mut g);
    assert_eq!((a.data(&g), b.data(&g), c.data(&g)), before);
    a.set_grad(&mut g, 100);
    assert_eq!((a.data(&g), b.data(&g), c.data(&g)), before);
    let d = c.add_value(&mut g, 1);
    assert_eq!((a.data(&g), b.data(&g), c.data(&g)), before);
    assert_eq!(d.data(&g), 43);
}

#[test]
fn backward_leaves_unreachable_nodes_alone() {
    let mut g: ScalarGraph<i64> = ScalarGraph::new();
    let a = g.scalar(2);
    let b = g.scalar(3);
    let other = g.scalar(4);
    other.set_grad(&mut g, 17);
    let c = a.mul(&mut g, b);
    let later = c.mul(&mut g, other);
    c.backward(&mut g);
    assert_eq!(a.grad(&g), 3);
    assert_eq!(b.grad(&g), 2);
    assert_eq!(c.grad(&g), 1);
    assert_eq!(other.grad(&g), 17);
    assert_eq!(later.grad(&g), 0);
}

#[test]
fn repeated_backward_accumulates() {
    let mut g: ScalarGraph<i64> = ScalarGraph::new();
    let a = g.scalar(3);
    let b = g.scalar(4);
    let c = a.mul(&mut g, b);
    c.backward(&mut g);
    c.backward(&mut g);
    assert_eq!(c.grad(&g), 1);
    assert_eq!(a.grad(&g), 8);
    assert_eq!(b.grad(&g), 6);
    a.set_grad(&mut g, 0);
    b.set_grad(&mut g, 0);
    c.backward(&mut g);
    assert_eq!(a.grad(&g), 4);
    assert_eq!(b.grad(&g), 3);
}

#[test]
fn backward_from_two_roots_adds_up() {
    let mut g: ScalarGraph<i64> = ScalarGraph::new();
    let a = g.scalar(3);
    let double = a.add(&mut g, a);
    let square = a.mul(&mut g, a);
    double.backward(&mut g);
    assert_eq!(a.grad(&g), 2);
    square.backward(&mut g);
    assert_eq!(a.grad(&g), 8);
}

#[test]
fn set_grad_overwrites() {
    let mut g: ScalarGraph<i64> = ScalarGraph::new();
    let a = g.scalar(1);
    let b = g.scalar(2);
    a.set_grad(&mut g, 5);
    assert_eq!(a.grad(&g), 5);
    a.set_grad(&mut g, -1);
    assert_eq!(a.grad(&g), -1);
    assert_eq!(b.grad(&g), 0);
    assert_eq!(a.data(&g), 1);
}

#[test]
fn step_of_one_node() {
    let mut g: ScalarGraph<i64> = ScalarGraph::new();
    let a = g.scalar(3);
    let b = g.scalar(4);
    let c = a.mul(&mut g, b);
    c.set_grad(&mut g, 10);
    Op::backward(&mut g, c.index());
    assert_eq!(a.grad(&g), 40);
    assert_eq!(b.grad(&g), 30);
    assert_eq!(c.grad(&g), 10);
    Op::backward(&mut g, a.index());
    assert_eq!(a.grad(&g), 40);
    assert_eq!(b.grad(&g), 30);
}

#[test]
fn negation_is_a_product_with_minus_one() {
    let mut g: ScalarGraph<i64> = ScalarGraph::new();
    let a = g.scalar(6);
    let n = a.neg(&mut g);
    assert_eq!(g.len(), 3);
    assert_eq!(g.node(1).data, -1);
    assert!(matches!(g.node(1).op, Op::Leaf));
    assert!(matches!(g.node(2).op, Op::Mul(1, 0)));
    assert_eq!(n.data(&g), -6);
    n.backward(&mut g);
    assert_eq!(a.grad(&g), -1);
    assert_eq!(g.node(1).grad, 6);
}

#[test]
fn subtraction_is_a_sum_with_the_negation() {
    let mut g: ScalarGraph<i64> = ScalarGraph::new();
    let a = g.scalar(10);
    let b = g.scalar(4);
    let d = a.sub(&mut g, b);
    assert_eq!(d.index(), 4);
    assert_eq!(d.data(&g), 6);
    assert!(matches!(g.node(2).op, Op::Leaf));
    assert!(matches!(g.node(3).op, Op::Mul(2, 1)));
    assert!(matches!(g.node(4).op, Op::Add(0, 3)));
    d.backward(&mut g);
    assert_eq!(a.grad(&g), 1);
    assert_eq!(b.grad(&g), -1);
}

#[test]
fn operations_with_plain_values() {
    let mut g: ScalarGraph<i64> = ScalarGraph::new();
    let a = g.scalar(10);

    let r = a.add_value(&mut g, 5);
    assert_eq!(r.data(&g), 15);
    assert!(matches!(g.node(r.index()).op, Op::Add(0, 1)));

    let r = a.radd_value(&mut g, 5);
    assert_eq!(r.data(&g), 15);
    assert!(matches!(g.node(r.index()).op, Op::Add(3, 0)));

    let r = a.mul_value(&mut g, 5);
    assert_eq!(r.data(&g), 50);
    assert!(matches!(g.node(r.index()).op, Op::Mul(0, 5)));

    let r = a.rmul_value(&mut g, 5);
    assert_eq!(r.data(&g), 50);
    assert!(matches!(g.node(r.index()).op, Op::Mul(7, 0)));

    let r = a.sub_value(&mut g, 3);
    assert_eq!(r.data(&g), 7);
    assert_eq!(g.node(9).data, -3);
    assert!(matches!(g.node(r.index()).op, Op::Add(0, 9)));

    let r = a.rsub_value(&mut g, 3);
    assert_eq!(r.data(&g), -7);
    assert_eq!(r.index(), 14);
    assert_eq!(g.node(11).data, -1);
    assert!(matches!(g.node(12).op, Op::Mul(11, 0)));
    assert_eq!(g.node(13).data, 3);
    assert!(matches!(g.node(14).op, Op::Add(13, 12)));
}

#[test]
fn constants_become_leaves_with_their_own_gradient() {
    let mut g: ScalarGraph<i64> = ScalarGraph::new();
    let a = g.scalar(10);
    let r = a.mul_value(&mut g, 5);
    r.backward(&mut g);
    assert_eq!(a.grad(&g), 5);
    assert_eq!(g.node(1).grad, 10);
}

#[test]
fn scoped_graph() {
    let value = ScalarGraph::<i64>::with(|g| {
        assert_eq!(g.len(), 0);
        let a = g.scalar(3);
        let b = g.scalar(4);
        let c = a.add(g, b);
        c.backward(g);
        (c.data(g), a.grad(g), g.len())
    });
    assert_eq!(value, (7, 1, 3));
}

#[test]
fn scalar_op_mints_what_it_is_given() {
    let mut g: ScalarGraph<i64> = ScalarGraph::new();
    let a = g.scalar(2);
    let b = g.scalar_op(99, Op::ReLU(a.index()));
    assert_eq!(b.index(), 1);
    assert_eq!(b.data(&g), 99);
    assert_eq!(b.grad(&g), 0);
    assert!(matches!(g.node(1).op, Op::ReLU(0)));
}

#[test]
fn zero_grad_clears_every_gradient() {
    let mut g: ScalarGraph<i64> = ScalarGraph::new();
    let a = g.scalar(3);
    let b = g.scalar(4);
    let c = a.mul(&mut g, b);
    let other = g.scalar(5);
    other.set_grad(&mut g, 9);
    c.backward(&mut g);
    g.zero_grad();
    for id in 0..g.len() {
        assert_eq!(g.node(id).grad, 0);
    }
    assert_eq!((a.data(&g), b.data(&g), c.data(&g), other.data(&g)), (3, 4, 12, 5));
    assert!(matches!(g.node(2).op, Op::Mul(0, 1)));
    c.backward(&mut g);
    assert_eq!((a.grad(&g), b.grad(&g), c.grad(&g), other.grad(&g)), (4, 3, 1, 0));

    let mut empty: ScalarGraph<i64> = ScalarGraph::new();
    empty.zero_grad();
    assert_eq!(empty.len(), 0);
}

#[test]
fn graphs_meet_their_invariant() {
    let mut g: ScalarGraph<i64> = ScalarGraph::new();
    assert!(g.is_well_formed());
    let a = g.scalar(2);
    let b = a.pow(&mut g, 3);
    let c = b.sub(&mut g, a);
    let d = c.relu(&mut g);
    assert!(g.is_well_formed());
    d.backward(&mut g);
    assert!(g.is_well_formed());
    g.zero_grad();
    assert!(g.is_well_formed());
    let e = g.scalar_op(0, Op::Add(d.index(), a.index()));
    assert!(g.is_well_formed());
    assert_eq!(e.topo(&g).len(), g.len());
}
