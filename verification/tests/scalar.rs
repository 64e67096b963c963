use scalargrad::number::Number;
use scalargrad::scalar::ScalarGraph;

#[derive(Clone, Copy, Debug, PartialEq)]
struct F(f64);

impl Number for F {
    fn zero_spec() -> Self {
        F(0.0)
    }
    fn one_spec() -> Self {
        F(1.0)
    }
    fn plus_spec(self, rhs: Self) -> Self {
        F(self.0 + rhs.0)
    }
    fn minus_spec(self, rhs: Self) -> Self {
        F(self.0 - rhs.0)
    }
    fn times_spec(self, rhs: Self) -> Self {
        F(self.0 * rhs.0)
    }
    fn negate_spec(self) -> Self {
        F(-self.0)
    }
    fn pow_spec(self, exponent: Self) -> Self {
        F(self.0.powf(exponent.0))
    }
    fn is_positive_spec(self) -> bool {
        self.0 > 0.0
    }
    fn zero() -> Self {
        F(0.0)
    }
    fn one() -> Self {
        F(1.0)
    }
    fn plus(self, rhs: Self) -> Self {
        F(self.0 + rhs.0)
    }
    fn minus(self, rhs: Self) -> Self {
        F(self.0 - rhs.0)
    }
    fn times(self, rhs: Self) -> Self {
        F(self.0 * rhs.0)
    }
    fn negate(self) -> Self {
        F(-self.0)
    }
    fn pow(self, exponent: Self) -> Self {
        F(self.0.powf(exponent.0))
    }
    fn is_positive(self) -> bool {
        self.0 > 0.0
    }
}

#[test]
fn add() {
    let mut g: ScalarGraph<F> = ScalarGraph::new();
    let a = g.scalar(F(3.0));
    let b = g.scalar(F(4.0));
    let c = a.add(&mut g, b);
    assert_eq!(c.data(&g).0, 7.0);
    c.backward(&mut g);
    assert_eq!(a.grad(&g).0, 1.0);
}

#[test]
fn mul() {
    let mut g: ScalarGraph<F> = ScalarGraph::new();
    let a = g.scalar(F(3.0));
    let b = g.scalar(F(4.0));
    let c = a.mul(&mut g, b);
    assert_eq!(c.data(&g).0, 12.0);
    c.backward(&mut g);
    assert_eq!(a.grad(&g).0, 4.0);
}

#[test]
fn pow() {
    let mut g: ScalarGraph<F> = ScalarGraph::new();
    let a = g.scalar(F(3.0));
    let b = a.pow(&mut g, F(2.0));
    assert_eq!(b.data(&g).0, 9.0);
    b.backward(&mut g);
    assert_eq!(a.grad(&g).0, 6.0);
}

#[test]
fn relu() {
    let mut g: ScalarGraph<F> = ScalarGraph::new();
    let p = g.scalar(F(3.0));
    assert_eq!(p.relu(&mut g).data(&g).0, 3.0);
    let n = g.scalar(F(-2.0));
    assert_eq!(n.relu(&mut g).data(&g).0, 0.0);
}

#[test]
fn backwards() {
    let mut g: ScalarGraph<F> = ScalarGraph::new();
    let a = g.scalar(F(1.5));
    let b = g.scalar(F(-4.0));
    let c = a.pow(&mut g, F(3.0)).div_value(&mut g, F(5.0));
    let d = b.pow(&mut g, F(2.0)).relu(&mut g).add(&mut g, c);

    d.backward(&mut g);
    assert_eq!(d.data(&g).0, 16.675);
    assert_eq!(a.grad(&g).0, 1.35);
    assert_eq!(b.grad(&g).0, -8.0);
}

#[test]
fn add_gives_both_operands_the_gradient() {
    let mut g: ScalarGraph<F> = ScalarGraph::new();
    let a = g.scalar(F(3.0));
    let b = g.scalar(F(4.0));
    let c = a.add(&mut g, b);
    c.backward(&mut g);
    assert_eq!(a.grad(&g).0, 1.0);
    assert_eq!(b.grad(&g).0, 1.0);
    assert_eq!(c.grad(&g).0, 1.0);
}

#[test]
fn mul_gives_each_operand_the_other_value() {
    let mut g: ScalarGraph<F> = ScalarGraph::new();
    let a = g.scalar(F(3.0));
    let b = g.scalar(F(4.0));
    let c = a.mul(&mut g, b);
    c.backward(&mut g);
    assert_eq!(a.grad(&g).0, 4.0);
    assert_eq!(b.grad(&g).0, 3.0);
}

#[test]
fn division_is_a_product_with_the_inverse() {
    let mut g: ScalarGraph<F> = ScalarGraph::new();
    let a = g.scalar(F(3.0));
    let b = g.scalar(F(4.0));
    let q = a.div(&mut g, b);
    assert_eq!(q.index(), 3);
    assert_eq!(g.node(2).data.0, 0.25);
    assert_eq!(q.data(&g).0, 0.75);
    q.backward(&mut g);
    assert_eq!(a.grad(&g).0, 0.25);
    assert_eq!(b.grad(&g).0, -3.0 * 4.0f64.powf(-2.0));
}

#[test]
fn division_by_and_of_a_plain_value() {
    let mut g: ScalarGraph<F> = ScalarGraph::new();
    let a = g.scalar(F(8.0));
    let q = a.div_value(&mut g, F(2.0));
    assert_eq!(q.data(&g).0, 4.0);
    assert_eq!(g.node(1).data.0, 0.5);
    q.backward(&mut g);
    assert_eq!(a.grad(&g).0, 0.5);

    let mut g: ScalarGraph<F> = ScalarGraph::new();
    let a = g.scalar(F(8.0));
    let q = a.rdiv_value(&mut g, F(2.0));
    assert_eq!(q.index(), 3);
    assert_eq!(g.node(1).data.0, 0.125);
    assert_eq!(g.node(2).data.0, 2.0);
    assert_eq!(q.data(&g).0, 0.25);
    q.backward(&mut g);
    assert_eq!(a.grad(&g).0, -2.0 * 8.0f64.powf(-2.0));
}

#[test]
fn subtraction_in_every_form() {
    let mut g: ScalarGraph<F> = ScalarGraph::new();
    let a = g.scalar(F(10.0));
    let b = g.scalar(F(4.0));
    assert_eq!(a.sub(&mut g, b).data(&g).0, 6.0);
    assert_eq!(a.sub_value(&mut g, F(2.5)).data(&g).0, 7.5);
    assert_eq!(a.rsub_value(&mut g, F(2.5)).data(&g).0, -7.5);
    assert_eq!(a.neg(&mut g).data(&g).0, -10.0);
}

#[test]
fn sums_and_products_with_plain_values() {
    let mut g: ScalarGraph<F> = ScalarGraph::new();
    let a = g.scalar(F(1.5));
    assert_eq!(a.add_value(&mut g, F(2.0)).data(&g).0, 3.5);
    assert_eq!(a.radd_value(&mut g, F(2.0)).data(&g).0, 3.5);
    assert_eq!(a.mul_value(&mut g, F(2.0)).data(&g).0, 3.0);
    assert_eq!(a.rmul_value(&mut g, F(2.0)).data(&g).0, 3.0);
}

#[test]
fn power_with_a_fraction_as_exponent() {
    let mut g: ScalarGraph<F> = ScalarGraph::new();
    let a = g.scalar(F(16.0));
    let r = a.pow(&mut g, F(0.5));
    assert_eq!(r.data(&g).0, 4.0);
    r.backward(&mut g);
    assert_eq!(a.grad(&g).0, 0.125);
}

#[test]
fn composite_gives_every_node_its_gradient() {
    let mut g: ScalarGraph<F> = ScalarGraph::new();
    let a = g.scalar(F(1.5));
    let b = g.scalar(F(-4.0));
    let cube = a.pow(&mut g, F(3.0));
    let c = cube.div_value(&mut g, F(5.0));
    let square = b.pow(&mut g, F(2.0));
    let rect = square.relu(&mut g);
    let d = rect.add(&mut g, c);
    d.backward(&mut g);
    assert_eq!(d.grad(&g).0, 1.0);
    assert_eq!(rect.grad(&g).0, 1.0);
    assert_eq!(c.grad(&g).0, 1.0);
    assert_eq!(square.grad(&g).0, 1.0);
    assert_eq!(cube.grad(&g).0, 0.2);
    assert_eq!(square.data(&g).0, 16.0);
    assert_eq!(cube.data(&g).0, 3.375);
    assert_eq!(d.topo(&g), vec![1, 5, 6, 0, 2, 3, 4, 7]);
}

#[test]
fn reading_a_value_twice_gives_the_same() {
    let mut g: ScalarGraph<F> = ScalarGraph::new();
    let a = g.scalar(F(0.1));
    let b = g.scalar(F(0.2));
    let c = a.add(&mut g, b);
    let first = c.data(&g).0;
    let second = c.data(&g).0;
    assert_eq!(first, second);
    assert_eq!(first, 0.1 + 0.2);
    c.backward(&mut g);
    assert_eq!(c.data(&g).0, first);
}

#[test]
fn scoped_graph_of_floats() {
    let value = ScalarGraph::<F>::with(|g| {
        let a = g.scalar(F(3.0));
        let b = g.scalar(F(4.0));
        let c = a.add(g, b);
        c.data(g).0
    });
    assert_eq!(value, 7.0);
}
