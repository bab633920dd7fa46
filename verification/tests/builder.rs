use bexp::db::records::NodeRecord;
use bexp::graph::builder::{build_graph, last_segment_of, replace_file_nodes};
use bexp::graph::needs_full_rebuild;
use bexp::types::{EdgeKind, NodeKind};

fn record(id: i64, file_id: i64, kind: &str, name: &str) -> NodeRecord {
    NodeRecord {
        id,
        file_id,
        kind: kind.to_string(),
        name: name.to_string(),
        qualified_name: None,
        signature: None,
        docstring: None,
        line_start: 1,
        line_end: 10,
        col_start: 0,
        col_end: 0,
        visibility: Some("pub".to_string()),
        is_export: true,
        metadata: None,
    }
}

fn calls(a: i64, b: i64) -> (i64, i64, String, u32) {
    (a, b, "calls".to_string(), 90)
}

#[test]
fn build_from_db_loads_nodes_and_edges() {
    let (f1, f2) = (1, 2);
    let nodes = vec![record(1, f1, "function", "foo"), record(2, f2, "function", "bar")];
    let (g, ids) = build_graph(&nodes, &[calls(1, 2)], &[]);
    assert_eq!(g.node_count(), 2);
    assert_eq!(g.edge_count(), 1);
    assert_eq!(ids.len(), 2);
}

#[test]
fn incremental_update_removes_and_readds_nodes() {
    // a.rs: foo (1), b.rs: bar (2), c.rs: baz (3); foo -> bar -> baz
    let nodes = vec![record(1, 1, "function", "foo"), record(2, 2, "function", "bar"), record(3, 3, "function", "baz")];
    let (mut g, mut ids) = build_graph(&nodes, &[calls(1, 2), calls(2, 3)], &[]);
    assert_eq!(g.node_count(), 3);
    assert_eq!(g.edge_count(), 2);
    // b.rs is stored again: bar is replaced by bar_new (4), called by foo.
    let changed_nodes = vec![record(4, 2, "function", "bar_new")];
    if needs_full_rebuild(g.node_count(), changed_nodes.len()) {
        let all = vec![record(1, 1, "function", "foo"), record(3, 3, "function", "baz"), record(4, 2, "function", "bar_new")];
        let rebuilt = build_graph(&all, &[calls(1, 4)], &[]);
        g = rebuilt.0;
        ids = rebuilt.1;
    } else {
        replace_file_nodes(&mut g, &mut ids, &[2], &changed_nodes, &[calls(1, 4)]);
    }
    assert_eq!(g.node_count(), 3);
    assert!(g.edge_count() >= 1);
    assert!(ids.contains_key(&4) && !ids.contains_key(&2));
}

#[test]
fn incremental_update_falls_back_to_full_rebuild_when_large_change() {
    let nodes = vec![record(1, 1, "function", "foo"), record(2, 2, "function", "bar")];
    let (g, _) = build_graph(&nodes, &[], &[]);
    assert_eq!(g.node_count(), 2);
    assert!(needs_full_rebuild(g.node_count(), 2));
    let (g, _) = build_graph(&nodes, &[], &[]);
    assert_eq!(g.node_count(), 2);
}

#[test]
fn unknown_kinds_and_dangling_edges() {
    let nodes = vec![record(10, 1, "gizmo", "x"), record(11, 1, "method", "y")];
    let edges = vec![(10, 11, "frobs".to_string(), 50), (10, 99, "calls".to_string(), 50)];
    let (g, ids) = build_graph(&nodes, &edges, &[]);
    assert_eq!(g[petgraph::graph::NodeIndex::new(0)].kind, NodeKind::External);
    assert_eq!(g[petgraph::graph::NodeIndex::new(1)].kind, NodeKind::Method);
    assert_eq!(g.edge_count(), 1);
    assert_eq!(g[petgraph::graph::EdgeIndex::new(0)].kind, EdgeKind::Calls);
    assert_eq!(g[petgraph::graph::EdgeIndex::new(0)].confidence, 50);
    assert_eq!(ids[&10], 0);
    assert_eq!(ids[&11], 1);
}

#[test]
fn cross_workspace_targets_become_external_nodes() {
    let nodes = vec![record(1, 1, "function", "main")];
    let cross = vec![
        (1, "other".to_string(), "lib::util::parse".to_string(), "calls".to_string(), 80),
        (1, "other".to_string(), "lib::util::parse".to_string(), "imports".to_string(), 70),
        (1, "third".to_string(), "plain".to_string(), "calls".to_string(), 60),
        (7, "other".to_string(), "x::y".to_string(), "calls".to_string(), 60),
    ];
    let (g, ids) = build_graph(&nodes, &[], &cross);
    assert_eq!(g.node_count(), 3);
    assert_eq!(g.edge_count(), 3);
    let ext = &g[petgraph::graph::NodeIndex::new(1)];
    assert_eq!((ext.db_id, ext.name.as_str(), ext.file_id, ext.kind), (-1, "parse", -1, NodeKind::External));
    assert_eq!(ext.qualified_name.as_deref(), Some("lib::util::parse"));
    let ext2 = &g[petgraph::graph::NodeIndex::new(2)];
    assert_eq!((ext2.db_id, ext2.name.as_str()), (-2, "plain"));
    assert_eq!(ids[&-1], 1);
    assert_eq!(ids[&-2], 2);
}

#[test]
fn last_segment_after_double_colon() {
    assert_eq!(last_segment_of("a::b::c"), "c");
    assert_eq!(last_segment_of("plain"), "plain");
    assert_eq!(last_segment_of("a::"), "");
    assert_eq!(last_segment_of("a:::b"), "b");
    assert_eq!(last_segment_of("a:b"), "a:b");
    assert_eq!(last_segment_of(""), "");
}

#[test]
fn replacing_a_file_keeps_the_others() {
    let nodes: Vec<NodeRecord> = (1..=10).map(|i| record(i, if i == 3 { 30 } else { i }, "function", &format!("n{}", i))).collect();
    let edges = vec![calls(1, 3), calls(3, 5), calls(2, 4), calls(9, 10)];
    let (mut g, mut ids) = build_graph(&nodes, &edges, &[]);
    assert!(!needs_full_rebuild(g.node_count(), 1));
    replace_file_nodes(&mut g, &mut ids, &[30], &[record(33, 30, "function", "n3b")], &[calls(33, 9), calls(1, 33)]);
    assert_eq!(g.node_count(), 10);
    assert!(!ids.contains_key(&3));
    assert_eq!(g[petgraph::graph::NodeIndex::new(ids[&33])].name, "n3b");
    for (id, idx) in &ids {
        assert_eq!(g[petgraph::graph::NodeIndex::new(*idx)].db_id, *id);
    }
    let mut kept: Vec<(i64, i64)> = g
        .edge_indices()
        .map(|e| {
            let (a, b) = g.edge_endpoints(e).unwrap();
            (g[a].db_id, g[b].db_id)
        })
        .collect();
    kept.sort();
    assert_eq!(kept, vec![(1, 33), (2, 4), (9, 10), (33, 9)]);
}
