use bexp::capsule::budget::{
    detail_level_for, extract_lines, levels_to_try, merge_ranges, pivot_padding, plan_rollups,
    range_covers, split_budget, split_memory_budget, use_full_file, BudgetSplit, MergedRange,
    RankedMatch,
};
use bexp::types::{DetailLevel, Intent};

#[test]
fn merge_ranges_merges_overlapping() {
    let ranges = vec![
        (10, 20, "a".to_string()),
        (18, 30, "b".to_string()),
        (50, 60, "c".to_string()),
    ];
    let merged = merge_ranges(&ranges, 100, 5);
    assert_eq!(merged.len(), 2);
    // First range: padded 5..35 merged
    assert!(merged[0].line_end >= 30);
    assert_eq!(merged[0].node_names.len(), 2);
    // Second range: padded 45..65
    assert_eq!(merged[1].node_names.len(), 1);
}

#[test]
fn merge_ranges_handles_single() {
    let ranges = vec![(10, 20, "func".to_string())];
    let merged = merge_ranges(&ranges, 100, 5);
    assert_eq!(merged.len(), 1);
    assert_eq!(merged[0].line_start, 5); // 10 - 5
    assert_eq!(merged[0].line_end, 25); // 20 + 5
}

#[test]
fn extract_lines_works() {
    let content = "line1\nline2\nline3\nline4\nline5";
    assert_eq!(extract_lines(content, 2, 4), "line2\nline3\nline4");
}

#[test]
fn merge_ranges_exact_bounds_and_names() {
    let ranges = vec![
        (50, 60, "c".to_string()),
        (10, 20, "a".to_string()),
        (18, 30, "b".to_string()),
    ];
    let merged = merge_ranges(&ranges, 100, 5);
    assert_eq!(merged.len(), 2);
    assert_eq!((merged[0].line_start, merged[0].line_end), (5, 35));
    assert_eq!(merged[0].node_names, vec!["a".to_string(), "b".to_string()]);
    assert_eq!((merged[1].line_start, merged[1].line_end), (45, 65));
    assert_eq!(merged[1].node_names, vec!["c".to_string()]);
}

#[test]
fn merge_ranges_clamps_to_file() {
    let ranges = vec![(2, 4, "x".to_string()), (9, 10, "y".to_string())];
    let merged = merge_ranges(&ranges, 10, 5);
    assert_eq!(merged.len(), 1);
    assert_eq!((merged[0].line_start, merged[0].line_end), (1, 10));
}

#[test]
fn merge_ranges_empty_input() {
    let ranges: Vec<(usize, usize, String)> = vec![];
    assert!(merge_ranges(&ranges, 10, 5).is_empty());
}

#[test]
fn merged_ranges_are_separated() {
    let ranges = vec![
        (1, 2, "a".to_string()),
        (30, 31, "b".to_string()),
        (60, 61, "c".to_string()),
    ];
    let merged = merge_ranges(&ranges, 100, 3);
    for w in merged.windows(2) {
        assert!(w[0].line_end < w[1].line_start);
    }
}

#[test]
fn extract_lines_edges() {
    let content = "a\nb\nc";
    assert_eq!(extract_lines(content, 1, 1), "a");
    assert_eq!(extract_lines(content, 2, 10), "b\nc");
    assert_eq!(extract_lines(content, 0, 2), "a\nb");
    assert_eq!(extract_lines("a\r\nb\r\n", 1, 2), "a\nb");
}

#[test]
fn split_budget_shares() {
    let s = split_budget(10000, 10, 50, 20);
    assert_eq!(s, BudgetSplit { pivot: 4500, bridge: 1800, skeleton: 2700 });
    let t = split_budget(999, 0, 33, 33);
    assert_eq!(t, BudgetSplit { pivot: 329, bridge: 329, skeleton: 341 });
}

#[test]
fn split_memory_budget_shares() {
    assert_eq!(split_memory_budget(8000, 10), (800, 7200));
    assert_eq!(split_memory_budget(99, 10), (9, 90));
    assert_eq!(split_memory_budget(5, 0), (0, 5));
}

#[test]
fn detail_levels_follow_significant_files() {
    assert_eq!(detail_level_for(0), DetailLevel::Detailed);
    assert_eq!(detail_level_for(3), DetailLevel::Detailed);
    assert_eq!(detail_level_for(4), DetailLevel::Standard);
    assert_eq!(detail_level_for(10), DetailLevel::Standard);
    assert_eq!(detail_level_for(11), DetailLevel::Minimal);
    assert_eq!(
        levels_to_try(DetailLevel::Detailed),
        vec![DetailLevel::Detailed, DetailLevel::Standard, DetailLevel::Minimal]
    );
    assert_eq!(
        levels_to_try(DetailLevel::Standard),
        vec![DetailLevel::Standard, DetailLevel::Minimal]
    );
    assert_eq!(levels_to_try(DetailLevel::Minimal), vec![DetailLevel::Minimal]);
}

#[test]
fn pivot_decisions() {
    assert_eq!(pivot_padding(Intent::BlastRadius, 5), 2);
    assert_eq!(pivot_padding(Intent::BlastRadius, 1), 1);
    assert_eq!(pivot_padding(Intent::Debug, 5), 5);
    assert!(!use_full_file(Intent::BlastRadius, 10, 4, 4));
    assert!(use_full_file(Intent::Explore, 49, 100, 1));
    assert!(!use_full_file(Intent::Explore, 50, 100, 1));
    assert!(use_full_file(Intent::Modify, 500, 10, 5));
    assert!(!use_full_file(Intent::Modify, 500, 11, 5));
    assert!(!use_full_file(Intent::Modify, 500, 0, 5));
    let r = MergedRange { line_start: 5, line_end: 35, node_names: vec![] };
    assert!(range_covers(&r, 10, 20));
    assert!(range_covers(&r, 5, 35));
    assert!(!range_covers(&r, 4, 20));
    assert!(!range_covers(&r, 10, 36));
}

fn m(file_id: i64, path: &str, name: &str, cluster: Option<&str>) -> RankedMatch {
    RankedMatch {
        file_id,
        file_path: path.to_string(),
        name: name.to_string(),
        cluster_id: cluster.map(|c| c.to_string()),
    }
}

#[test]
fn plan_rollups_groups_clusters() {
    let matches = vec![
        m(1, "a.rs", "pivot_fn", Some("k1")),
        m(2, "b.rs", "sib_b", Some("k1")),
        m(3, "c.rs", "own", Some("k2")),
        m(4, "d.rs", "sib_d", Some("k2")),
        m(5, "e.rs", "plain", None),
        m(5, "e.rs", "plain_again", None),
        m(2, "b.rs", "sib_b2", Some("k1")),
    ];
    let placed = vec![1i64];
    let clusters = vec![("k1".to_string(), "a.rs".to_string())];
    let plan = plan_rollups(&matches, &placed, &clusters);
    assert_eq!(plan.rollups.len(), 2);
    assert_eq!(plan.rollups[0].cluster_name, "k1");
    assert_eq!(plan.rollups[0].representative_file, "a.rs");
    assert_eq!(plan.rollups[0].matched_siblings, vec![("b.rs".to_string(), "sib_b".to_string())]);
    assert_eq!(plan.rollups[1].cluster_name, "k2");
    assert_eq!(plan.rollups[1].representative_file, "c.rs");
    assert_eq!(plan.rollups[1].matched_siblings, vec![("d.rs".to_string(), "sib_d".to_string())]);
    assert_eq!(plan.skeleton_candidates, vec![2, 4]);
}

#[test]
fn plan_rollups_without_clusters_lists_each_file_once() {
    let matches = vec![m(7, "x.rs", "a", None), m(8, "y.rs", "b", None), m(7, "x.rs", "c", None)];
    let plan = plan_rollups(&matches, &vec![], &vec![]);
    assert!(plan.rollups.is_empty());
    assert_eq!(plan.skeleton_candidates, vec![0, 1]);
}
