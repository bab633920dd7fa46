use bexp::indexer::extractor::{compute_structure_hash, ExtractedEdge, ExtractedNode};
use bexp::indexer::structural_diff::compute_structural_diff;
use bexp::types::{EdgeKind, NodeKind, NodeSummary};

fn summary(name: &str, sig: &str, ls: i64, le: i64) -> NodeSummary {
    NodeSummary {
        kind: "function".to_string(),
        name: name.to_string(),
        signature: Some(sig.to_string()),
        line_start: ls,
        line_end: le,
    }
}

#[test]
fn no_changes_produces_empty_diff() {
    let nodes = vec![NodeSummary {
        kind: "function".to_string(),
        name: "foo".to_string(),
        signature: Some("fn foo()".to_string()),
        line_start: 1,
        line_end: 5,
    }];
    let diff = compute_structural_diff("test.rs", &nodes, &nodes);
    assert!(diff.is_empty());
}

#[test]
fn detects_added_node() {
    let old = vec![NodeSummary {
        kind: "function".to_string(),
        name: "foo".to_string(),
        signature: Some("fn foo()".to_string()),
        line_start: 1,
        line_end: 5,
    }];
    let new = vec![
        NodeSummary {
            kind: "function".to_string(),
            name: "foo".to_string(),
            signature: Some("fn foo()".to_string()),
            line_start: 1,
            line_end: 5,
        },
        NodeSummary {
            kind: "function".to_string(),
            name: "bar".to_string(),
            signature: Some("fn bar()".to_string()),
            line_start: 7,
            line_end: 10,
        },
    ];
    let diff = compute_structural_diff("test.rs", &old, &new);
    assert_eq!(diff.added_nodes.len(), 1);
    assert_eq!(diff.added_nodes[0].name, "bar");
}

#[test]
fn detects_removed_node() {
    let old = vec![
        NodeSummary {
            kind: "function".to_string(),
            name: "foo".to_string(),
            signature: Some("fn foo()".to_string()),
            line_start: 1,
            line_end: 5,
        },
        NodeSummary {
            kind: "function".to_string(),
            name: "bar".to_string(),
            signature: Some("fn bar()".to_string()),
            line_start: 7,
            line_end: 10,
        },
    ];
    let new = vec![NodeSummary {
        kind: "function".to_string(),
        name: "foo".to_string(),
        signature: Some("fn foo()".to_string()),
        line_start: 1,
        line_end: 5,
    }];
    let diff = compute_structural_diff("test.rs", &old, &new);
    assert_eq!(diff.removed_nodes.len(), 1);
    assert_eq!(diff.removed_nodes[0].name, "bar");
}

#[test]
fn detects_modified_signature() {
    let old = vec![NodeSummary {
        kind: "function".to_string(),
        name: "foo".to_string(),
        signature: Some("fn foo()".to_string()),
        line_start: 1,
        line_end: 5,
    }];
    let new = vec![NodeSummary {
        kind: "function".to_string(),
        name: "foo".to_string(),
        signature: Some("fn foo(x: i32)".to_string()),
        line_start: 1,
        line_end: 5,
    }];
    let diff = compute_structural_diff("test.rs", &old, &new);
    assert_eq!(diff.modified_nodes.len(), 1);
    assert_eq!(diff.modified_nodes[0].old_signature, Some("fn foo()".to_string()));
    assert_eq!(diff.modified_nodes[0].new_signature, Some("fn foo(x: i32)".to_string()));
}

#[test]
fn detects_rename_at_same_position() {
    let old = vec![summary("foo", "fn foo()", 1, 5)];
    let new = vec![summary("bar", "fn bar()", 1, 5)];
    let diff = compute_structural_diff("test.rs", &old, &new);
    assert_eq!(diff.renamed_nodes.len(), 1);
    assert_eq!(diff.renamed_nodes[0].old_name, "foo");
    assert_eq!(diff.renamed_nodes[0].new_name, "bar");
    assert!(diff.added_nodes.is_empty());
    assert!(diff.removed_nodes.is_empty());
    assert_eq!(diff.file_path, "test.rs");
}

#[test]
fn diff_of_empty_files_is_empty() {
    let diff = compute_structural_diff("x.rs", &[], &[]);
    assert!(diff.is_empty());
}

fn node(sig: &str) -> ExtractedNode {
    ExtractedNode {
        kind: NodeKind::Function,
        name: "foo".to_string(),
        qualified_name: None,
        signature: Some(sig.to_string()),
        docstring: None,
        line_start: 1,
        line_end: 5,
        col_start: 0,
        col_end: 0,
        visibility: None,
        is_export: false,
        metadata: None,
    }
}

#[test]
fn format_only_change_same_hash() {
    let nodes = vec![ExtractedNode {
        kind: NodeKind::Function,
        name: "foo".to_string(),
        qualified_name: None,
        signature: Some("fn foo()".to_string()),
        docstring: None,
        line_start: 1,
        line_end: 5,
        col_start: 0,
        col_end: 0,
        visibility: None,
        is_export: false,
        metadata: None,
    }];
    let edges: Vec<ExtractedEdge> = vec![];

    let hash1 = compute_structure_hash(&nodes, &edges);
    let hash2 = compute_structure_hash(&nodes, &edges);
    assert_eq!(hash1, hash2);
}

#[test]
fn signature_change_different_hash() {
    let nodes1 = vec![node("fn foo()")];
    let nodes2 = vec![ExtractedNode {
        kind: NodeKind::Function,
        name: "foo".to_string(),
        qualified_name: None,
        signature: Some("fn foo(x: i32)".to_string()),
        docstring: None,
        line_start: 1,
        line_end: 5,
        col_start: 0,
        col_end: 0,
        visibility: None,
        is_export: false,
        metadata: None,
    }];
    let edges: Vec<ExtractedEdge> = vec![];

    let hash1 = compute_structure_hash(&nodes1, &edges);
    let hash2 = compute_structure_hash(&nodes2, &edges);
    assert_ne!(hash1, hash2);
}

#[test]
fn structure_hash_is_order_independent_and_ignores_details() {
    let mut a = node("fn a()");
    a.name = "a".to_string();
    let mut b = node("fn b()");
    b.name = "b".to_string();
    let mut b2 = b.clone();
    b2.col_start = 7;
    b2.docstring = Some("doc".to_string());
    let edge = |s: usize, t: usize| ExtractedEdge {
        source_idx: s,
        target_idx: t,
        kind: EdgeKind::Calls,
        confidence: 90,
        context: None,
    };
    let h1 = compute_structure_hash(&[a.clone(), b.clone()], &[edge(0, 1), edge(1, 0)]);
    let h2 = compute_structure_hash(&[b2, a], &[edge(1, 0), edge(0, 1)]);
    assert_eq!(h1, h2);
    assert_eq!(h1.len(), 16);
    assert!(h1.chars().all(|c| c.is_ascii_hexdigit() && !c.is_ascii_uppercase()));
}

#[test]
fn structure_hash_matches_xxh3_of_records() {
    let nodes = vec![node("fn foo()")];
    let expected = format!(
        "{:016x}",
        xxhash_rust::xxh3::xxh3_64("function:foo:fn foo():1:5;".as_bytes())
    );
    assert_eq!(compute_structure_hash(&nodes, &[]), expected);
    let edges = vec![ExtractedEdge {
        source_idx: 0,
        target_idx: 0,
        kind: EdgeKind::Calls,
        confidence: 90,
        context: None,
    }];
    let expected2 = format!(
        "{:016x}",
        xxhash_rust::xxh3::xxh3_64("function:foo:fn foo():1:5;e:0:0:calls;".as_bytes())
    );
    assert_eq!(compute_structure_hash(&nodes, &edges), expected2);
}

#[test]
fn moved_symbols_with_same_signatures_are_no_change() {
    let old = vec![summary("f", "fn f()", 1, 3), summary("g", "fn g()", 5, 9)];
    let new = vec![summary("g", "fn g()", 7, 11), summary("f", "fn f()", 20, 22)];
    assert!(compute_structural_diff("a.rs", &old, &new).is_empty());
    let changed = vec![summary("g", "fn g()", 7, 11), summary("f", "fn f(x: u8)", 20, 22)];
    assert!(!compute_structural_diff("a.rs", &old, &changed).is_empty());
}
