use graph_editor::graph::{Edge, Graph, GraphError, Node};

fn node(code: usize, name: &str, kind: &str) -> Node {
    Node {
        code,
        name: name.to_string(),
        local_type: kind.to_string(),
    }
}

fn graph_of(codes: &[usize], edges: &[(usize, usize, u32)], weighted: bool) -> Graph {
    Graph {
        is_weighted: weighted,
        size: codes.len(),
        nodes: codes
            .iter()
            .map(|c| node(*c, &format!("Local {c}"), "Praça"))
            .collect(),
        edges: edges
            .iter()
            .map(|(from, to, weight)| Edge {
                from: *from,
                to: *to,
                weight: *weight,
            })
            .collect(),
    }
}

#[test]
fn add_edge_then_find_it_and_refuse_duplicate() {
    let mut g = graph_of(&[1, 2, 3], &[], false);
    assert!(g.find_edge_by_from_to(1, 2).is_none());
    assert_eq!(
        g.add_edge(Edge {
            from: 1,
            to: 2,
            weight: 1
        }),
        Ok(())
    );
    let found = g.find_edge_by_from_to(1, 2).unwrap();
    assert_eq!((found.from, found.to, found.weight), (1, 2, 1));
    assert!(g.find_edge_by_from_to(2, 1).is_some());
    assert_eq!(
        g.add_edge(Edge {
            from: 1,
            to: 2,
            weight: 5
        }),
        Err(GraphError::EdgeAlreadyExists)
    );
    assert_eq!(
        g.add_edge(Edge {
            from: 2,
            to: 1,
            weight: 1
        }),
        Err(GraphError::EdgeAlreadyExists)
    );
    assert_eq!(g.edges.len(), 1);
    assert!(g.is_well_formed());
}

#[test]
fn add_loop_edge() {
    let mut g = graph_of(&[1, 2], &[], false);
    assert!(!g.has_buckle(&g.nodes[0]));
    assert_eq!(
        g.add_edge(Edge {
            from: 1,
            to: 1,
            weight: 1
        }),
        Ok(())
    );
    let n1 = node(1, "Local 1", "Praça");
    let n2 = node(2, "Local 2", "Praça");
    assert!(g.has_buckle(&n1));
    assert!(!g.has_buckle(&n2));
    assert!(g.is_adjacent(&n1, &n1));
    assert!(!g.is_adjacent(&n1, &n2));
}

#[test]
fn remove_edge_then_it_is_gone() {
    let mut g = graph_of(&[1, 2, 3], &[(1, 2, 1), (2, 3, 1)], false);
    assert_eq!(g.remove_edge(2, 1), Ok(()));
    assert!(g.find_edge_by_from_to(1, 2).is_none());
    assert!(g.find_edge_by_from_to(2, 1).is_none());
    assert_eq!(g.remove_edge(1, 2), Err(GraphError::EdgeNotFound));
    assert_eq!(g.edges.len(), 1);
    assert_eq!((g.edges[0].from, g.edges[0].to), (2, 3));
}

#[test]
fn remove_missing_edge_leaves_graph_unchanged() {
    let mut g = graph_of(&[1, 2, 3], &[(1, 2, 1)], false);
    assert_eq!(g.remove_edge(1, 3), Err(GraphError::EdgeNotFound));
    assert_eq!(g.edges.len(), 1);
}

#[test]
fn find_by_code_present_and_absent() {
    let g = graph_of(&[4, 7], &[], false);
    let n = g.find_by_code(7).unwrap();
    assert_eq!(n.code, 7);
    assert_eq!(n.name, "Local 7");
    assert!(g.find_by_code(99).is_none());
}

#[test]
fn make_weighted_once_only() {
    let mut g = graph_of(&[1, 2], &[(1, 2, 1)], false);
    assert_eq!(g.make_weighted(), Ok(()));
    assert!(g.is_weighted);
    assert_eq!(g.make_weighted(), Err(GraphError::AlreadyWeighted));
    assert!(g.is_weighted);
    assert_eq!(g.edges[0].weight, 1);
}

#[test]
fn add_weight_sets_weight() {
    let mut e = Edge {
        from: 1,
        to: 2,
        weight: 1,
    };
    Graph::add_weight(&mut e, 9);
    assert_eq!((e.from, e.to, e.weight), (1, 2, 9));
}

#[test]
fn complete_triangle_and_removal() {
    let g = graph_of(&[1, 2, 3], &[(1, 2, 1), (2, 3, 1), (3, 1, 1)], false);
    assert!(g.is_complete());
    for (a, b) in [(1, 2), (2, 3), (1, 3)] {
        let mut h = graph_of(&[1, 2, 3], &[(1, 2, 1), (2, 3, 1), (3, 1, 1)], false);
        assert_eq!(h.remove_edge(a, b), Ok(()));
        assert!(!h.is_complete());
    }
}

#[test]
fn complete_edge_cases() {
    assert!(graph_of(&[], &[], false).is_complete());
    assert!(graph_of(&[1], &[], false).is_complete());
    assert!(!graph_of(&[1, 2], &[], false).is_complete());
    assert!(graph_of(&[1, 2], &[(2, 1, 1)], false).is_complete());
}

#[test]
fn well_formed_detects_duplicates() {
    assert!(graph_of(&[1, 2], &[(1, 2, 1)], false).is_well_formed());
    assert!(!graph_of(&[1, 1], &[], false).is_well_formed());
    assert!(!graph_of(&[1, 2], &[(1, 2, 1), (2, 1, 3)], false).is_well_formed());
}

#[test]
fn edge_has_either_order() {
    let e = Edge {
        from: 3,
        to: 5,
        weight: 2,
    };
    assert!(e.has(3, 5));
    assert!(e.has(5, 3));
    assert!(!e.has(3, 3));
}

#[test]
fn node_exists_by_code() {
    let nodes = vec![node(2, "A", "B"), node(5, "C", "D")];
    assert!(graph_editor::graph::node_exists(&nodes, 5));
    assert!(!graph_editor::graph::node_exists(&nodes, 3));
    assert!(!graph_editor::graph::node_exists(&vec![], 1));
}
