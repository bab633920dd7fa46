use bexp::indexer::extractor::{ExtractedEdge, ExtractedFile, UnresolvedRef};
use bexp::indexer::pipeline::{
    content_hash, mtime_fingerprint, plan_file_rows, should_parse, within_size_limit, IndexReport,
};
use bexp::types::{EdgeKind, Language};
use bexp::config::bexpConfig;
use bexp::indexer::pipeline::watched_change;

#[test]
fn content_hash_is_xxh3_hex() {
    let text = "pub fn hello() {}\n";
    assert_eq!(
        content_hash(text),
        format!("{:016x}", xxhash_rust::xxh3::xxh3_64(text.as_bytes()))
    );
    assert_eq!(content_hash(""), format!("{:016x}", xxhash_rust::xxh3::xxh3_64(b"")));
    assert_ne!(content_hash("a"), content_hash("b"));
}

#[test]
fn mtime_fingerprint_hashes_paths_and_times() {
    let entries = vec![("lib.rs".to_string(), 5i64), ("src/a.rs".to_string(), -1i64)];
    let mut data = Vec::new();
    for (p, m) in &entries {
        data.extend_from_slice(p.as_bytes());
        data.extend_from_slice(&m.to_le_bytes());
    }
    let expected = format!("{:016x}", xxhash_rust::xxh3::xxh3_64(&data));
    assert_eq!(mtime_fingerprint(&entries), expected);
    let touched = vec![("lib.rs".to_string(), 6i64), ("src/a.rs".to_string(), -1i64)];
    assert_ne!(mtime_fingerprint(&touched), expected);
    assert_eq!(mtime_fingerprint(&[]), format!("{:016x}", xxhash_rust::xxh3::xxh3_64(b"")));
}

#[test]
fn fingerprint_unchanged_tree_skips_reindex() {
    // The same tree gives the same fingerprint, so a second full index is skipped.
    let entries = vec![("lib.rs".to_string(), 1_700_000_000_000_000_000i64)];
    assert_eq!(mtime_fingerprint(&entries), mtime_fingerprint(&entries.clone()));
    assert!(!should_parse(Some(1_700_000_000_000_000_000), 1_700_000_000_000_000_000));
    let report = IndexReport::unchanged();
    assert_eq!(report.file_count, 0);
    assert_eq!(report.changed_file_ids.len(), 0);
}

#[test]
fn fingerprint_changes_when_file_touched() {
    let before = vec![("lib.rs".to_string(), 100i64)];
    let after = vec![("lib.rs".to_string(), 150i64)];
    assert_ne!(mtime_fingerprint(&before), mtime_fingerprint(&after));
    assert!(should_parse(Some(100), 150));
    assert!(should_parse(None, 150));
}

#[test]
fn size_limit_counts_bytes() {
    assert!(within_size_limit("abc", 3));
    assert!(!within_size_limit("abcd", 3));
    assert!(!within_size_limit("é", 1));
    assert!(within_size_limit("", 0));
}

#[test]
fn file_rows_map_indices_to_ids() {
    let edge = |s: usize, t: usize| ExtractedEdge {
        source_idx: s,
        target_idx: t,
        kind: EdgeKind::Contains,
        confidence: 100,
        context: Some("ctx".to_string()),
    };
    let uref = |s: usize, name: &str| UnresolvedRef {
        source_idx: s,
        target_name: name.to_string(),
        target_qualified_name: None,
        edge_kind: EdgeKind::Calls,
        import_path: Some("./x".to_string()),
        context: None,
    };
    let file = ExtractedFile {
        language: Language::Rust,
        content_hash: String::new(),
        mtime_ns: 0,
        size_bytes: 0,
        nodes: vec![],
        edges: vec![edge(0, 1), edge(1, 2), edge(2, 0)],
        unresolved_refs: vec![uref(1, "helper"), uref(5, "gone")],
        structure_hash: None,
    };
    let rows = plan_file_rows(&vec![10, 20], &file);
    assert_eq!(rows.edges.len(), 1);
    assert_eq!(rows.edges[0].source_node_id, 10);
    assert_eq!(rows.edges[0].target_node_id, 20);
    assert_eq!(rows.edges[0].kind, EdgeKind::Contains);
    assert_eq!(rows.edges[0].confidence, 100);
    assert_eq!(rows.edges[0].context.as_deref(), Some("ctx"));
    assert_eq!(rows.refs.len(), 1);
    assert_eq!(rows.refs[0].source_node_id, 20);
    assert_eq!(rows.refs[0].target_name, "helper");
    assert_eq!(rows.refs[0].import_path.as_deref(), Some("./x"));
}

#[test]
fn watched_changes() {
    let config = bexpConfig::default();
    assert!(watched_change(&config, "src/a.py", "/w/src/a.py"));
    assert!(!watched_change(&config, "node_modules/x/a.js", "/w/node_modules/x/a.js"));
    assert!(!watched_change(&config, "notes.txt", "/w/notes.txt"));
    assert!(!watched_change(&config, ".env", "/w/.env"));
}
