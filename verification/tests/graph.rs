use std::collections::{HashMap, HashSet};

use bexp::graph::traversal::{
    bfs_direction, bridge_candidates, find_all_paths, find_node_index_by_name, find_paths, get_callees, get_callers,
    get_edge_kind_counts, impact_graph, CodeGraph, GraphError,
};
use bexp::graph::GraphEdge;
use petgraph::graph::{DiGraph, NodeIndex};
use bexp::graph::{
    is_bridge_edge_kind, needs_full_rebuild, parse_direction, GraphNode, ImpactDirection,
};
use bexp::types::{EdgeKind, NodeKind};

fn node(name: &str, qname: Option<&str>) -> GraphNode {
    GraphNode {
        db_id: 1,
        name: name.to_string(),
        qualified_name: qname.map(|q| q.to_string()),
        kind: NodeKind::Function,
        file_id: 1,
    }
}

#[test]
fn symbols_match_by_name_or_qualified_name() {
    let n = node("helper", Some("src/a.rs::helper"));
    assert!(n.matches_symbol("helper"));
    assert!(n.matches_symbol("src/a.rs::helper"));
    assert!(!n.matches_symbol("help"));
    assert_eq!(n.display_name(), "src/a.rs::helper");
    let m = node("bare", None);
    assert!(!m.matches_symbol(""));
    assert_eq!(m.display_name(), "bare");
}

#[test]
fn rebuild_threshold_is_a_fifth() {
    assert!(!needs_full_rebuild(0, 10));
    assert!(!needs_full_rebuild(10, 2));
    assert!(needs_full_rebuild(10, 3));
    assert!(needs_full_rebuild(2, 2));
    assert!(!needs_full_rebuild(100, 20));
    assert!(needs_full_rebuild(100, 21));
}

#[test]
fn bridge_kinds_and_directions() {
    assert!(is_bridge_edge_kind(EdgeKind::Calls));
    assert!(is_bridge_edge_kind(EdgeKind::Imports));
    assert!(is_bridge_edge_kind(EdgeKind::Implements));
    assert!(is_bridge_edge_kind(EdgeKind::Extends));
    assert!(!is_bridge_edge_kind(EdgeKind::Contains));
    assert!(!is_bridge_edge_kind(EdgeKind::TypeRef));
    assert_eq!(parse_direction("callers"), Some(ImpactDirection::Callers));
    assert_eq!(parse_direction("callees"), Some(ImpactDirection::Callees));
    assert_eq!(parse_direction("both"), Some(ImpactDirection::Both));
    assert_eq!(parse_direction("up"), None);
}

fn sample_graph(names: &[&str], edges: &[(usize, usize, EdgeKind)]) -> CodeGraph {
    let mut g: CodeGraph = DiGraph::default();
    for (i, name) in names.iter().enumerate() {
        g.add_node(GraphNode {
            db_id: (i + 1) as i64,
            name: name.to_string(),
            qualified_name: None,
            kind: NodeKind::Function,
            file_id: (i + 1) as i64,
        });
    }
    for &(a, b, kind) in edges {
        g.add_edge(NodeIndex::new(a), NodeIndex::new(b), GraphEdge { kind, confidence: 90 });
    }
    g
}

fn ids_of(g: &CodeGraph) -> HashMap<i64, usize> {
    g.node_indices().map(|i| (g[i].db_id, i.index())).collect()
}

#[test]
fn bridge_candidates_finds_intermediate_nodes() {
    let g = sample_graph(&["a_func", "b_func", "c_func"], &[(0, 1, EdgeKind::Calls), (1, 2, EdgeKind::Calls)]);
    let (a, b, c) = (1i64, 2i64, 3i64);
    let pivots: Vec<i64> = vec![a, c];
    let included: HashSet<i64> = [a, c].into_iter().collect();
    let bridges = bridge_candidates(&g, &ids_of(&g), &pivots, &included);
    assert!(bridges.contains(&b), "Bridge candidates should include B");
}

#[test]
fn bridge_candidates_excludes_already_included() {
    let g = sample_graph(&["a_func", "b_func"], &[(0, 1, EdgeKind::Calls)]);
    let pivots: Vec<i64> = vec![1];
    let included: HashSet<i64> = [1i64, 2].into_iter().collect();
    let bridges = bridge_candidates(&g, &ids_of(&g), &pivots, &included);
    assert!(bridges.is_empty(), "B should not be a bridge candidate since it's already included");
}

#[test]
fn bridge_candidates_need_a_bridging_edge() {
    let g = sample_graph(&["a", "b", "c"], &[(0, 1, EdgeKind::Contains), (2, 0, EdgeKind::Imports)]);
    let included: HashSet<i64> = HashSet::new();
    let bridges = bridge_candidates(&g, &ids_of(&g), &vec![1, 99], &included);
    assert_eq!(bridges, vec![3]);
}

#[test]
fn callers_and_callees_reports() {
    let g = sample_graph(&["main", "run", "helper"], &[(0, 1, EdgeKind::Calls), (1, 2, EdgeKind::Calls), (0, 2, EdgeKind::Imports)]);
    let callees = get_callees(&g, 0, 3, None);
    assert_eq!(
        callees,
        "# Callees of `main`\n\n## Depth 0\n\n- `helper` (function)\n- `run` (function)\n\n"
    );
    let only_calls = vec!["calls".to_string()];
    let levels = bfs_direction(&g, 0, 3, true, Some(&only_calls));
    assert_eq!(levels, vec![vec![1], vec![2]]);
    let callers = get_callers(&g, 2, 1, None);
    assert_eq!(callers, "# Callers of `helper`\n\n## Depth 0\n\n- `main` (function)\n- `run` (function)\n\n");
}

#[test]
fn impact_graph_both_and_errors() {
    let g = sample_graph(&["main", "run"], &[(0, 1, EdgeKind::Calls)]);
    let both = impact_graph(&g, "run", "both", 2, None).unwrap();
    assert_eq!(
        both,
        "# Callers of `run`\n\n## Depth 0\n\n- `main` (function)\n\n\n---\n\n# Callees of `run`\n\n"
    );
    assert!(matches!(impact_graph(&g, "nope", "callers", 2, None), Err(GraphError::NotFound(m)) if m == "Symbol not found: nope"));
    assert!(matches!(impact_graph(&g, "run", "sideways", 2, None), Err(GraphError::Graph(m)) if m == "Invalid direction: sideways"));
    assert_eq!(find_node_index_by_name(&g, "run"), Some(2));
    assert_eq!(find_node_index_by_name(&g, "missing"), None);
}

#[test]
fn find_paths_lists_simple_paths() {
    let g = sample_graph(&["a", "b", "c", "d"], &[(0, 1, EdgeKind::Calls), (1, 3, EdgeKind::Calls), (0, 2, EdgeKind::Calls), (2, 3, EdgeKind::Calls), (3, 0, EdgeKind::Calls)]);
    let paths = find_all_paths(&g, 0, 3, 5);
    assert_eq!(paths, vec![vec![0, 2, 3], vec![0, 1, 3]]);
    let report = find_paths(&g, "a", "d", 5).unwrap();
    assert_eq!(
        report,
        "# Paths from `a` to `d`\n\n## Path 1 (2 hops)\n\n- `a` (function) →\n- `c` (function) →\n- `d` (function)\n\n## Path 2 (2 hops)\n\n- `a` (function) →\n- `b` (function) →\n- `d` (function)\n\n"
    );
    assert_eq!(find_paths(&g, "a", "d", 1).unwrap(), "No paths found from `a` to `d` within 1 hops.");
    assert!(matches!(find_paths(&g, "x", "d", 1), Err(GraphError::NotFound(m)) if m == "Source symbol not found: x"));
    assert!(matches!(find_paths(&g, "a", "y", 1), Err(GraphError::NotFound(m)) if m == "Target symbol not found: y"));
}

#[test]
fn edge_kind_counts_most_frequent_first() {
    let g = sample_graph(&["a", "b", "c"], &[(0, 1, EdgeKind::Imports), (1, 2, EdgeKind::Calls), (0, 2, EdgeKind::Calls)]);
    assert_eq!(get_edge_kind_counts(&g), vec![("calls".to_string(), 2), ("imports".to_string(), 1)]);
}

#[test]
fn walks_follow_relationships() {
    let g = sample_graph(
        &["a", "b", "c", "d"],
        &[(0, 1, EdgeKind::Calls), (1, 2, EdgeKind::Calls), (0, 3, EdgeKind::Contains), (3, 2, EdgeKind::Calls)],
    );
    let levels = bfs_direction(&g, 0, 5, true, None);
    let mut prev = vec![0usize];
    for level in &levels {
        for &n in level {
            assert!(prev.iter().any(|&p| g.find_edge(NodeIndex::new(p), NodeIndex::new(n)).is_some()));
        }
        prev = level.clone();
    }
    for path in find_all_paths(&g, 0, 2, 4) {
        for w in path.windows(2) {
            assert!(g.find_edge(NodeIndex::new(w[0]), NodeIndex::new(w[1])).is_some());
        }
    }
}

#[test]
fn bridge_candidate_met_first_through_other_edge() {
    // a contains b, and b calls a: b is bridged to a.
    let g = sample_graph(&["a", "b"], &[(0, 1, EdgeKind::Contains), (1, 0, EdgeKind::Calls)]);
    let included: HashSet<i64> = [1i64].into_iter().collect();
    let bridges = bridge_candidates(&g, &ids_of(&g), &vec![1], &included);
    assert_eq!(bridges, vec![2]);
}
