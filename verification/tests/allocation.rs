use bexp::capsule::allocation::{
    allocate, bridge_text_of, count_significant, pivot_files, plan_pivots, select_pivots,
    skeleton_candidates, skeleton_levels_for, AllocationInputs, BudgetConfig, SearchHit,
    SkeletonSource,
};
use bexp::db::records::NodeRange;
use bexp::types::{DetailLevel, Intent};

fn config(max_pivot_files: usize) -> BudgetConfig {
    BudgetConfig {
        overhead_reserve_pct: 10,
        pivot_budget_pct: 50,
        bridge_budget_pct: 20,
        max_pivot_files,
        min_pivot_budget: 10,
        context_padding: 2,
        min_bridge_budget: 1,
        max_skeleton_files: 5,
        min_skeleton_budget: 1,
    }
}

fn hit(node_id: i64, file_id: i64, path: &str, name: &str, score: u64) -> SearchHit {
    SearchHit {
        node_id,
        file_id,
        file_path: path.to_string(),
        name: name.to_string(),
        score,
        cluster_id: None,
    }
}

fn range(node_id: i64, file_id: i64, path: &str, name: &str, lines: (i64, i64)) -> NodeRange {
    NodeRange {
        node_id,
        file_id,
        file_path: path.to_string(),
        line_start: lines.0,
        line_end: lines.1,
        kind: "function".to_string(),
        name: name.to_string(),
        signature: None,
    }
}

fn count(text: &str) -> usize {
    text.chars().count() / 4
}

#[test]
fn pivots_bridges_and_skeletons_within_their_shares() {
    let hits = vec![
        hit(1, 10, "src/a.rs", "alpha", 90),
        hit(2, 20, "src/b.rs", "beta", 50),
        hit(3, 30, "src/c.rs", "gamma", 40),
    ];
    let ranges = vec![
        range(1, 10, "src/a.rs", "alpha", (1, 1)),
        range(2, 20, "src/b.rs", "beta", (1, 1)),
        range(3, 30, "src/c.rs", "gamma", (1, 1)),
    ];
    let cfg = config(2);
    let files = pivot_files(&hits, &ranges, &cfg);
    assert_eq!(files, vec![(10, "src/a.rs".to_string()), (20, "src/b.rs".to_string())]);
    let contents = vec![
        Some("fn alpha() { beta() }".to_string()),
        Some("fn beta() {}".to_string()),
    ];
    let counts = vec![(10, 1u64), (20, 1u64)];
    let plans = plan_pivots(&hits, &ranges, &counts, &contents, Intent::Explore, &cfg);
    assert_eq!(plans.len(), 2);
    assert!(plans[0].pieces[0].is_full_file);
    let pivot_tokens: Vec<Vec<usize>> = plans
        .iter()
        .map(|p| p.pieces.iter().map(|pc| count(&pc.content)).collect())
        .collect();
    assert_eq!(pivot_tokens, vec![vec![5], vec![3]]);
    let sel = select_pivots(&plans, &pivot_tokens, 450, cfg.min_pivot_budget);
    assert_eq!(sel.included, vec![1, 2]);
    assert_eq!(sel.seen_files, vec![10, 20]);

    let mut delta = range(9, 40, "src/d.rs", "delta", (5, 9));
    delta.signature = Some("fn delta(x: u32) -> u32".to_string());
    assert_eq!(bridge_text_of(&delta), "fn delta(x: u32) -> u32");
    let bridge_rows = vec![delta];
    let bridge_tokens = vec![count("fn delta(x: u32) -> u32")];

    let (cands, rollups) = skeleton_candidates(&hits, &sel);
    assert!(rollups.is_empty());
    assert_eq!(cands.len(), 1);
    assert_eq!(cands[0].file_id, 30);
    assert_eq!(count_significant(&hits), 1);
    let levels = skeleton_levels_for(&hits);
    assert_eq!(levels, vec![DetailLevel::Detailed, DetailLevel::Standard, DetailLevel::Minimal]);
    let skeleton_sources = vec![Some(SkeletonSource {
        path: "src/c.rs".to_string(),
        texts: vec![
            Some("x".repeat(2000)),
            Some("fn gamma() { ... }".to_string()),
            None,
        ],
    })];
    let skeleton_tokens = vec![vec![500, 4, 0]];

    let inputs = AllocationInputs {
        hits,
        ranges,
        node_counts: counts,
        contents,
        pivot_tokens,
        bridge_rows,
        bridge_tokens,
        skeleton_sources,
        skeleton_tokens,
    };
    let a = allocate(&inputs, &cfg, 1000, Intent::Explore);
    assert_eq!(a.pivots.len(), 2);
    assert_eq!(a.pivots[0].path, "src/a.rs");
    assert_eq!(a.pivots[0].content, "fn alpha() { beta() }");
    assert_eq!(a.pivots[0].relevance_score, 90);
    assert_eq!(a.pivots[0].node_names, vec!["alpha".to_string()]);
    assert_eq!(a.bridges.len(), 1);
    assert_eq!(a.bridges[0].signature, "fn delta(x: u32) -> u32");
    assert_eq!(a.skeletons.len(), 1);
    assert_eq!(a.skeletons[0].level, DetailLevel::Standard);
    assert_eq!(a.skeletons[0].skeleton, "fn gamma() { ... }");
    assert!(a.unallocated_matches.is_empty());
    assert_eq!(a.total_tokens, 5 + 3 + 5 + 4);
}

#[test]
fn usage_intent_takes_padded_excerpts() {
    let hits = vec![hit(1, 10, "src/a.rs", "alpha", 90)];
    let ranges = vec![range(1, 10, "src/a.rs", "alpha", (10, 12))];
    let text: String = (1..=60).map(|i| format!("line{}\n", i)).collect();
    let contents = vec![Some(text)];
    let mut cfg = config(5);
    cfg.context_padding = 5;
    let plans = plan_pivots(&hits, &ranges, &vec![], &contents, Intent::BlastRadius, &cfg);
    assert_eq!(plans[0].pieces.len(), 1);
    let piece = &plans[0].pieces[0];
    assert!(!piece.is_full_file);
    assert_eq!((piece.line_start, piece.line_end), (8, 14));
    assert_eq!(piece.content, "line8\nline9\nline10\nline11\nline12\nline13\nline14");
    assert_eq!(piece.covers, vec![1]);
}

#[test]
fn pivot_phase_stops_below_minimum_budget() {
    let hits = vec![hit(1, 10, "src/a.rs", "alpha", 90), hit(2, 20, "src/b.rs", "beta", 80)];
    let ranges = vec![
        range(1, 10, "src/a.rs", "alpha", (1, 1)),
        range(2, 20, "src/b.rs", "beta", (1, 1)),
    ];
    let cfg = config(5);
    let contents = vec![Some("a".to_string()), Some("b".to_string())];
    let plans = plan_pivots(&hits, &ranges, &vec![], &contents, Intent::Explore, &cfg);
    // 15 tokens leave 5 of 20, under the minimum of 10: the second file is not visited.
    let sel = select_pivots(&plans, &vec![vec![15], vec![1]], 20, 10);
    assert_eq!(sel.pivots.len(), 1);
    assert_eq!(sel.seen_files, vec![10]);
    assert_eq!(sel.remaining, 5);
}

#[test]
fn skeleton_without_row_or_language_is_left_out() {
    let hits = vec![
        hit(1, 10, "src/a.rs", "alpha", 90),
        hit(2, 20, "notes.txt", "beta", 80),
        hit(3, 30, "src/c.rs", "gamma", 70),
    ];
    let ranges = vec![range(1, 10, "src/a.rs", "alpha", (1, 1))];
    let cfg = config(1);
    let contents = vec![None];
    let inputs = AllocationInputs {
        hits,
        ranges,
        node_counts: vec![],
        contents,
        pivot_tokens: vec![vec![]],
        bridge_rows: vec![],
        bridge_tokens: vec![],
        skeleton_sources: vec![
            Some(SkeletonSource {
                path: "notes.txt".to_string(),
                texts: vec![Some("x".to_string()), Some("x".to_string()), Some("x".to_string())],
            }),
            None,
        ],
        skeleton_tokens: vec![vec![1, 1, 1], vec![]],
    };
    let a = allocate(&inputs, &cfg, 1000, Intent::Explore);
    assert!(a.pivots.is_empty());
    assert!(a.skeletons.is_empty());
    let left: Vec<(String, u64)> = a
        .unallocated_matches
        .iter()
        .map(|u| (u.path.clone(), u.score))
        .collect();
    assert_eq!(left, vec![("notes.txt".to_string(), 80), ("src/c.rs".to_string(), 70)]);
    assert_eq!(a.total_tokens, 0);
}
