use scalargrad::arena::Arena;
use scalargrad::graph::Graph;

#[test]
fn arena_push_returns_the_position() {
    let mut arena: Arena<u32> = Arena::new();
    assert_eq!(arena.len(), 0);
    assert_eq!(arena.push(10), 0);
    assert_eq!(arena.push(20), 1);
    assert_eq!(arena.push(30), 2);
    assert_eq!(arena.len(), 3);
}

#[test]
fn arena_node_reads_what_was_pushed() {
    let mut arena: Arena<String> = Arena::new();
    let a = arena.push(String::from("a"));
    let b = arena.push(String::from("b"));
    assert_eq!(arena.node(a), "a");
    assert_eq!(arena.node(b), "b");
    assert_eq!(arena.node(a), "a");
}

#[test]
fn arena_node_mut_changes_one_slot_only() {
    let mut arena: Arena<i64> = Arena::new();
    let a = arena.push(1);
    let b = arena.push(2);
    let c = arena.push(3);
    *arena.node_mut(b) += 40;
    assert_eq!(*arena.node(a), 1);
    assert_eq!(*arena.node(b), 42);
    assert_eq!(*arena.node(c), 3);
    assert_eq!(arena.len(), 3);
}

#[test]
fn arena_indices_stay_valid_as_it_grows() {
    let mut arena: Arena<usize> = Arena::new();
    let first = arena.push(7);
    for i in 0..1000 {
        assert_eq!(arena.push(i), i + 1);
    }
    assert_eq!(*arena.node(first), 7);
    assert_eq!(*arena.node(1000), 999);
}

#[test]
fn graph_push_returns_the_position() {
    let mut graph: Graph<u32> = Graph::new();
    assert_eq!(graph.len(), 0);
    assert_eq!(graph.push(10), 0);
    assert_eq!(graph.push(20), 1);
    assert_eq!(graph.len(), 2);
}

#[test]
fn graph_node_and_node_mut() {
    let mut graph: Graph<(i32, i32)> = Graph::new();
    let a = graph.push((1, 2));
    let b = graph.push((3, 4));
    graph.node_mut(a).1 = 9;
    assert_eq!(*graph.node(a), (1, 9));
    assert_eq!(*graph.node(b), (3, 4));
}
