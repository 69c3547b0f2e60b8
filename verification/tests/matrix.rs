use graph::matrix::{Edge, Graph, MatrixError, Vertex};

#[test]
fn matrix_vertex_holds_id_and_name() {
    let v = Vertex::new(2, "node3");
    assert_eq!(v.id, 2);
    assert_eq!(v.name, "node3");
}

#[test]
fn matrix_edge_cells() {
    assert!(!Edge::new().edge);
    assert!(Edge::set_edge().edge);
}

#[test]
fn matrix_new_has_no_edges() {
    let g = Graph::new(4);
    assert!(!g.is_empty());
    assert_eq!(g.len(), 4);
    for a in 0..4 {
        for b in 0..4 {
            let from = Vertex::new(a, "from");
            let to = Vertex::new(b, "to");
            assert_eq!(g.has_edge(&from, &to), Ok(false));
        }
    }
}

#[test]
fn matrix_of_no_nodes_is_empty() {
    let mut g = Graph::new(0);
    assert!(g.is_empty());
    assert_eq!(g.len(), 0);
    let n = Vertex::new(0, "node1");
    assert_eq!(g.add_edge(&n, &n), Err(MatrixError::OutOfRange));
    assert_eq!(g.has_edge(&n, &n), Err(MatrixError::OutOfRange));
}

#[test]
fn matrix_add_edge_sets_one_cell() {
    let mut g = Graph::new(4);
    let n1 = Vertex::new(0, "node1");
    let n2 = Vertex::new(1, "node2");
    let n3 = Vertex::new(2, "node3");
    let n4 = Vertex::new(3, "node4");
    assert_eq!(g.add_edge(&n1, &n2), Ok(()));
    assert_eq!(g.add_edge(&n1, &n3), Ok(()));
    assert_eq!(g.add_edge(&n2, &n3), Ok(()));
    assert_eq!(g.add_edge(&n2, &n4), Ok(()));
    assert_eq!(g.add_edge(&n3, &n4), Ok(()));
    assert_eq!(g.add_edge(&n3, &n1), Ok(()));
    let nodes = [&n1, &n2, &n3, &n4];
    let expected = [
        [false, true, true, false],
        [false, false, true, true],
        [true, false, false, true],
        [false, false, false, false],
    ];
    for a in 0..4 {
        for b in 0..4 {
            assert_eq!(g.has_edge(nodes[a], nodes[b]), Ok(expected[a][b]));
        }
    }
    assert_eq!(g.len(), 4);
    assert!(!g.is_empty());
}

#[test]
fn matrix_add_edge_twice_is_the_same() {
    let mut g = Graph::new(2);
    let a = Vertex::new(0, "a");
    let b = Vertex::new(1, "b");
    assert_eq!(g.add_edge(&b, &a), Ok(()));
    assert_eq!(g.add_edge(&b, &a), Ok(()));
    assert_eq!(g.has_edge(&b, &a), Ok(true));
    assert_eq!(g.has_edge(&a, &b), Ok(false));
    assert_eq!(g.has_edge(&a, &a), Ok(false));
    assert_eq!(g.has_edge(&b, &b), Ok(false));
}

#[test]
fn matrix_out_of_range_changes_nothing() {
    let mut g = Graph::new(3);
    let inside = Vertex::new(2, "inside");
    let outside = Vertex::new(3, "outside");
    let far = Vertex::new(usize::MAX, "far");
    assert_eq!(g.add_edge(&inside, &outside), Err(MatrixError::OutOfRange));
    assert_eq!(g.add_edge(&outside, &inside), Err(MatrixError::OutOfRange));
    assert_eq!(g.add_edge(&far, &far), Err(MatrixError::OutOfRange));
    assert_eq!(g.has_edge(&inside, &outside), Err(MatrixError::OutOfRange));
    assert_eq!(g.has_edge(&outside, &inside), Err(MatrixError::OutOfRange));
    for a in 0..3 {
        for b in 0..3 {
            let from = Vertex::new(a, "from");
            let to = Vertex::new(b, "to");
            assert_eq!(g.has_edge(&from, &to), Ok(false));
        }
    }
    assert_eq!(g.len(), 3);
    assert_eq!(g.add_edge(&inside, &inside), Ok(()));
    assert_eq!(g.has_edge(&inside, &inside), Ok(true));
}
