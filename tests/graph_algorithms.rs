use graph_editor::graph::{Edge, Graph, Node};

fn node(code: usize) -> Node {
    Node {
        code,
        name: format!("Local {code}"),
        local_type: "Praça".to_string(),
    }
}

fn graph_of(codes: &[usize], edges: &[(usize, usize, u32)], weighted: bool) -> Graph {
    Graph {
        is_weighted: weighted,
        size: codes.len(),
        nodes: codes.iter().map(|c| node(*c)).collect(),
        edges: edges
            .iter()
            .map(|(from, to, weight)| Edge {
                from: *from,
                to: *to,
                weight: *weight,
            })
            .collect(),
    }
}

fn codes(path: &[&Node]) -> Vec<usize> {
    path.iter().map(|n| n.code).collect()
}

#[test]
fn is_cycle_shapes() {
    assert!(!Graph::is_cycle(&vec![]));
    assert!(!Graph::is_cycle(&vec![1]));
    assert!(!Graph::is_cycle(&vec![1, 2]));
    assert!(Graph::is_cycle(&vec![1, 2, 3, 1]));
    assert!(!Graph::is_cycle(&vec![1, 2, 1, 3, 1]));
    assert!(!Graph::is_cycle(&vec![1, 2, 3, 4]));
    assert!(!Graph::is_cycle(&vec![1, 1, 1]));
}

#[test]
fn get_cycle_found() {
    let g = graph_of(&[1, 2, 3], &[(1, 2, 1), (2, 3, 1), (3, 1, 1)], false);
    let cycle = g.get_cycle(&vec![1, 2, 3, 1]).unwrap();
    assert_eq!(codes(&cycle), vec![1, 2, 3, 1]);
    assert_eq!(cycle[1].name, "Local 2");
    let back = g.get_cycle(&vec![1, 2, 1]).unwrap();
    assert_eq!(codes(&back), vec![1, 2, 1]);
}

#[test]
fn get_cycle_missing_edge_or_vertex() {
    let g = graph_of(&[1, 2, 3], &[(1, 2, 1), (2, 3, 1)], false);
    assert!(g.get_cycle(&vec![1, 2, 3, 1]).is_none());
    assert!(g.get_cycle(&vec![1, 2, 9, 1]).is_none());
    assert!(g.get_cycle(&vec![2, 2, 2]).is_none());
    assert!(g.get_cycle(&vec![1, 2]).is_none());
}

#[test]
fn find_path_to_itself() {
    let g = graph_of(&[1, 2], &[(1, 2, 1)], false);
    let path = g.get_path(&node(1), &node(1)).unwrap();
    assert_eq!(codes(&path), vec![1]);
}

#[test]
fn find_path_to_missing_vertex() {
    let g = graph_of(&[1, 2], &[(1, 2, 1)], false);
    assert!(g.get_path(&node(1), &node(99)).is_none());
    assert!(g.get_path(&node(99), &node(1)).is_none());
}

#[test]
fn find_path_follows_edges() {
    let g = graph_of(&[1, 2, 3, 4], &[(1, 2, 1), (3, 2, 1), (3, 4, 1)], false);
    let path = g.get_path(&node(1), &node(4)).unwrap();
    assert_eq!(codes(&path), vec![1, 2, 3, 4]);
}

#[test]
fn find_path_unreachable() {
    let g = graph_of(&[1, 2, 3, 4], &[(1, 2, 1), (3, 4, 1)], false);
    assert!(g.get_path(&node(1), &node(4)).is_none());
}

#[test]
fn find_path_with_cycle_terminates() {
    let g = graph_of(
        &[1, 2, 3, 4, 5],
        &[(1, 2, 1), (2, 3, 1), (3, 1, 1), (3, 3, 1), (4, 5, 1)],
        false,
    );
    assert!(g.get_path(&node(1), &node(5)).is_none());
    let path = g.get_path(&node(2), &node(1)).unwrap();
    let cs = codes(&path);
    assert_eq!(cs[0], 2);
    assert_eq!(*cs.last().unwrap(), 1);
    for w in cs.windows(2) {
        assert!(g.find_edge_by_from_to(w[0], w[1]).is_some());
    }
}

#[test]
fn path_cost_weighted() {
    let g = graph_of(&[1, 2, 3], &[(1, 2, 4), (2, 3, 7)], true);
    assert_eq!(g.calculate_path(&node(1), &node(3)), Some(11));
    assert_eq!(g.calculate_path(&node(3), &node(1)), Some(11));
    assert_eq!(g.calculate_path(&node(2), &node(2)), Some(0));
}

#[test]
fn path_cost_matches_found_path() {
    let g = graph_of(&[1, 2, 3, 4], &[(1, 2, 4), (2, 3, 7), (1, 3, 2), (3, 4, 5)], true);
    let path = g.get_path(&node(1), &node(4)).unwrap();
    let expected: u64 = codes(&path)
        .windows(2)
        .map(|w| g.find_edge_by_from_to(w[0], w[1]).unwrap().weight as u64)
        .sum();
    assert_eq!(g.calculate_path(&node(1), &node(4)), Some(expected));
    assert_eq!(g.weigh_path(&path), expected);
}

#[test]
fn path_cost_unweighted_counts_edges() {
    let g = graph_of(&[1, 2, 3], &[(1, 2, 4), (2, 3, 7)], false);
    assert_eq!(g.calculate_path(&node(1), &node(3)), Some(2));
}

#[test]
fn path_cost_without_path() {
    let g = graph_of(&[1, 2, 3], &[(1, 2, 4)], true);
    assert_eq!(g.calculate_path(&node(1), &node(3)), None);
}

#[test]
fn path_cost_large_weights() {
    let g = graph_of(&[1, 2, 3], &[(1, 2, u32::MAX), (2, 3, u32::MAX)], true);
    assert_eq!(g.calculate_path(&node(1), &node(3)), Some(2 * u32::MAX as u64));
}

#[test]
fn subgraph_with_its_edge() {
    let g = graph_of(&[1, 2, 3], &[(1, 2, 1), (2, 3, 1)], false);
    let s = graph_of(&[1, 2], &[(1, 2, 1)], false);
    assert!(g.is_subgraph(&s));
}

#[test]
fn subgraph_isolated_pair_not_adjacent_in_reference() {
    // Neither 1 nor 3 has a neighbour in the reference that belongs to the
    // candidate, so the isolation rule accepts the pair.
    let g = graph_of(&[1, 2, 3], &[(1, 2, 1), (2, 3, 1)], false);
    let s2 = graph_of(&[1, 3], &[], false);
    assert!(g.is_subgraph(&s2));
}

#[test]
fn subgraph_isolated_vertex_rule() {
    let g = graph_of(&[1, 2, 3], &[(1, 2, 1), (2, 3, 1)], false);
    let s = graph_of(&[1, 2], &[], false);
    assert!(!g.is_subgraph(&s));
}

#[test]
fn subgraph_edge_missing_in_reference() {
    let g = graph_of(&[1, 2, 3], &[(1, 2, 1), (2, 3, 1)], false);
    let s = graph_of(&[1, 3], &[(1, 3, 1)], false);
    assert!(!g.is_subgraph(&s));
}

#[test]
fn subgraph_vertex_must_match_fully() {
    let g = graph_of(&[1, 2], &[(1, 2, 1)], false);
    let mut s = graph_of(&[1, 2], &[(1, 2, 1)], false);
    s.nodes[0].name = "Outro".to_string();
    assert!(!g.is_subgraph(&s));
    let t = graph_of(&[1, 5], &[], false);
    assert!(!g.is_subgraph(&t));
}

#[test]
fn node_edges_turned_to_start_at_vertex() {
    let g = graph_of(&[1, 2, 3], &[(1, 2, 4), (3, 1, 7), (2, 3, 1), (1, 1, 2)], true);
    let edges = g.get_node_edges(&node(1));
    let got: Vec<(usize, usize, u32)> = edges.iter().map(|e| (e.from, e.to, e.weight)).collect();
    assert_eq!(got, vec![(1, 2, 4), (1, 3, 7), (1, 1, 2)]);
    assert!(g.get_node_edges(&node(9)).is_empty());
}

#[test]
fn path_cost_unweighted_follows_found_path() {
    let g = graph_of(&[1, 2, 3, 4], &[(1, 2, 9), (2, 3, 9), (3, 4, 9), (1, 4, 9)], false);
    let path = g.get_path(&node(1), &node(4)).unwrap();
    assert_eq!(
        g.calculate_path(&node(1), &node(4)),
        Some(path.len() as u64 - 1)
    );
}
