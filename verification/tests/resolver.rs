use std::collections::HashMap;

use bexp::db::records::{CandidateNode, ImportEdgeRecord};
use bexp::indexer::resolver::{
    apply_type_preference, disambiguate, path_matches_import, plan_resolutions, PendingRef,
};

fn cand(id: i64, file_id: i64, kind: &str, name: &str) -> CandidateNode {
    CandidateNode {
        id,
        file_id,
        kind: kind.to_string(),
        name: name.to_string(),
        qualified_name: None,
        signature: None,
    }
}

fn pending(id: i64, source_node_id: i64, source_file_id: i64, target: &str, kind: &str) -> PendingRef {
    PendingRef {
        id,
        source_node_id,
        target_name: target.to_string(),
        target_qualified_name: None,
        edge_kind: kind.to_string(),
        context: None,
        import_path: None,
        source_file_id,
    }
}

fn paths(entries: &[(i64, &str)]) -> HashMap<i64, String> {
    entries.iter().map(|(id, p)| (*id, p.to_string())).collect()
}

#[test]
fn resolver_picks_imported_file_candidate() {
    // files: a.rs = 1, b.rs = 2, c.rs = 3
    let file_paths = paths(&[(1, "a.rs"), (2, "b.rs"), (3, "c.rs")]);
    // Both b.rs and c.rs export "helper"; a.rs has "run", an import node, and c.rs a module.
    let exported = vec![
        cand(1, 2, "function", "helper"),
        cand(2, 3, "function", "helper"),
        cand(3, 1, "function", "run"),
        cand(4, 1, "import", "c_import"),
        cand(5, 3, "module", "c"),
    ];
    // a.rs imports from c.rs
    let imports = vec![ImportEdgeRecord { source_file_id: 1, target_file_id: 3 }];
    let refs = vec![pending(1, 3, 1, "helper", "calls")];

    let resolved = plan_resolutions(&refs, &exported, &imports, &file_paths);
    assert_eq!(resolved.len(), 1);
    let calls_edge = resolved.iter().find(|e| e.edge_kind == "calls" && e.source_node_id == 3).unwrap();
    // Should have picked helper_c (from the imported file)
    assert_eq!(calls_edge.target_node_id, 2);
    // 0.85 + 0.05 type bonus
    assert_eq!(calls_edge.confidence, 90);
}

#[test]
fn resolver_type_ref_prefers_struct_over_function() {
    let file_paths = paths(&[(1, "a.rs"), (2, "b.rs")]);
    let exported = vec![
        cand(1, 2, "struct", "Config"),
        cand(2, 2, "function", "Config"),
        cand(3, 1, "function", "run"),
        cand(4, 1, "import", "b_import"),
        cand(5, 2, "module", "b"),
    ];
    let imports = vec![ImportEdgeRecord { source_file_id: 1, target_file_id: 2 }];
    let refs = vec![pending(1, 3, 1, "Config", "type_ref")];

    let resolved = plan_resolutions(&refs, &exported, &imports, &file_paths);
    assert_eq!(resolved.len(), 1);
    let type_edge = resolved.iter().find(|e| e.edge_kind == "type_ref").unwrap();
    assert_eq!(type_edge.target_node_id, 1);
}

#[test]
fn resolver_single_candidate_no_import_accepted() {
    let file_paths = paths(&[(1, "a.rs"), (2, "b.rs")]);
    let exported = vec![cand(1, 2, "function", "unique_helper"), cand(2, 1, "function", "run")];
    let refs = vec![pending(1, 2, 1, "unique_helper", "calls")];

    let resolved = plan_resolutions(&refs, &exported, &[], &file_paths);
    assert_eq!(resolved.len(), 1);
    let calls_edge = resolved.iter().find(|e| e.edge_kind == "calls").unwrap();
    assert_eq!(calls_edge.target_node_id, 1);
    // Single candidate with no import evidence: base 0.50 + 0.05 type bonus
    assert_eq!(calls_edge.confidence, 55);
}

#[test]
fn resolver_rejects_ambiguous_name_only_match() {
    let file_paths = paths(&[(1, "a.rs"), (2, "b.rs"), (3, "c.rs")]);
    let exported = vec![
        cand(1, 2, "function", "helper"),
        cand(2, 3, "function", "helper"),
        cand(3, 1, "function", "run"),
    ];
    let refs = vec![pending(1, 3, 1, "helper", "calls")];

    let resolved = plan_resolutions(&refs, &exported, &[], &file_paths);
    // Name-only confidence (0.30 + 0.05 = 0.35) > MIN_ACCEPTANCE (0.30), so it resolves
    assert_eq!(resolved.len(), 1);
    let calls_edge = resolved.iter().find(|e| e.edge_kind == "calls").unwrap();
    assert!(calls_edge.confidence < 50, "Ambiguous match should have low confidence");
    assert_eq!(calls_edge.confidence, 35);
    // the first of equally scored candidates wins
    assert_eq!(calls_edge.target_node_id, 1);
}

#[test]
fn path_matches_import_works() {
    assert!(path_matches_import("./utils/helpers", "src/utils/helpers.ts"));
    assert!(path_matches_import("utils/helpers", "src/utils/helpers.ts"));
    assert!(path_matches_import("helpers", "src/utils/helpers.ts"));
    assert!(!path_matches_import("other", "src/utils/helpers.ts"));
    assert!(!path_matches_import("", "src/utils/helpers.ts"));
}

#[test]
fn path_matches_import_edges() {
    assert!(!path_matches_import("helpers", ""));
    assert!(path_matches_import("././lib/a", "lib/a.tar.gz") == false);
    assert!(path_matches_import("././lib/a.tar", "lib/a.tar.gz"));
    assert!(path_matches_import("Makefile", "Makefile"));
    assert!(path_matches_import("./", "anything.rs"));
}

#[test]
fn type_preference_bonus_and_cap() {
    assert_eq!(apply_type_preference(30, "calls", "function"), 35);
    assert_eq!(apply_type_preference(30, "calls", "method"), 35);
    assert_eq!(apply_type_preference(30, "calls", "struct"), 30);
    assert_eq!(apply_type_preference(85, "type_ref", "enum"), 90);
    assert_eq!(apply_type_preference(80, "implements", "interface"), 85);
    assert_eq!(apply_type_preference(50, "extends", "class"), 55);
    assert_eq!(apply_type_preference(97, "extends", "struct"), 99);
    assert_eq!(apply_type_preference(150, "imports", "module"), 99);
    assert_eq!(apply_type_preference(40, "imports", "module"), 40);
}

#[test]
fn qualified_name_match_wins_with_95() {
    let mut target = cand(9, 2, "function", "other_name");
    target.qualified_name = Some("crate::x::helper".to_string());
    let exported = vec![cand(1, 3, "function", "helper"), target];
    let mut r = pending(7, 3, 1, "helper", "calls");
    r.target_qualified_name = Some("crate::x::helper".to_string());
    r.context = Some("ctx".to_string());
    let resolved = plan_resolutions(&[r], &exported, &[], &HashMap::new());
    assert_eq!(resolved.len(), 1);
    assert_eq!(resolved[0].ref_id, 7);
    assert_eq!(resolved[0].target_node_id, 9);
    assert_eq!(resolved[0].confidence, 95);
    assert_eq!(resolved[0].context.as_deref(), Some("ctx"));
}

#[test]
fn same_file_candidates_are_ignored() {
    let exported = vec![cand(1, 1, "function", "helper")];
    let refs = vec![pending(1, 2, 1, "helper", "calls")];
    assert!(plan_resolutions(&refs, &exported, &[], &HashMap::new()).is_empty());
}

#[test]
fn import_path_evidence_scores_80() {
    let file_paths = paths(&[(1, "src/main.ts"), (2, "src/utils/helpers.ts"), (3, "lib/helpers.ts")]);
    let exported = vec![cand(1, 3, "variable", "help"), cand(2, 2, "variable", "help")];
    let mut r = pending(1, 5, 1, "help", "calls");
    r.import_path = Some("./utils/helpers".to_string());
    let resolved = plan_resolutions(&[r.clone()], &exported, &[], &file_paths);
    assert_eq!(resolved.len(), 1);
    assert_eq!(resolved[0].target_node_id, 2);
    assert_eq!(resolved[0].confidence, 80);
    let cands = vec![cand(1, 3, "variable", "help"), cand(2, 2, "variable", "help")];
    assert_eq!(
        disambiguate(&cands, "calls", 1, &r.import_path, &[], &file_paths),
        Some((2, 80))
    );
    assert_eq!(disambiguate(&vec![], "calls", 1, &None, &[], &file_paths), None);
}
