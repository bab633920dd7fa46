use bexp::capsule::budget::{
    BridgeExcerpt, BudgetAllocation, ClusterRollup, PivotExcerpt, SkeletonFile, UnallocatedMatch,
};
use bexp::capsule::generator::{assemble_capsule, external_references, intent_for_override};
use bexp::types::{DetailLevel, Intent};

fn empty_allocation() -> BudgetAllocation {
    BudgetAllocation {
        pivots: vec![],
        bridges: vec![],
        skeletons: vec![],
        rollups: vec![],
        unallocated_matches: vec![],
        total_tokens: 0,
    }
}

#[test]
fn capsule_with_every_section() {
    let allocation = BudgetAllocation {
        pivots: vec![
            PivotExcerpt {
                file_id: 1,
                path: "src/a.rs".to_string(),
                content: "fn a() {}".to_string(),
                tokens: 12,
                relevance_score: 85,
                line_start: 1,
                line_end: 1,
                is_full_file: true,
                node_names: vec!["a".to_string(), "b".to_string()],
            },
            PivotExcerpt {
                file_id: 2,
                path: "lib/b.py".to_string(),
                content: "x = 1\ny = 2".to_string(),
                tokens: 7,
                relevance_score: 5,
                line_start: 3,
                line_end: 4,
                is_full_file: false,
                node_names: vec![],
            },
        ],
        bridges: vec![BridgeExcerpt {
            file_id: 3,
            path: "c.ts".to_string(),
            signature: "function c(): void".to_string(),
            tokens: 5,
            node_name: "c".to_string(),
        }],
        skeletons: vec![SkeletonFile {
            file_id: 4,
            path: "pkg/.hidden".to_string(),
            skeleton: "func d()".to_string(),
            tokens: 3,
            level: DetailLevel::Minimal,
        }],
        rollups: vec![ClusterRollup {
            cluster_name: "k1".to_string(),
            representative_file: "src/a.rs".to_string(),
            matched_siblings: vec![("e.rs".to_string(), "e".to_string())],
        }],
        unallocated_matches: vec![UnallocatedMatch { path: "f.md".to_string(), score: 1234 }],
        total_tokens: 27,
    };
    let mut expected = String::new();
    expected.push_str("# Context Capsule\n\n");
    expected.push_str("**Query:** find a\n");
    expected.push_str("**Intent:** explore\n");
    expected.push_str(
        "**Token usage:** ~27 tokens (2 pivot excerpts, 1 bridges, 1 skeleton files)\n\n",
    );
    expected.push_str("---\n\n## Pivot Files\n\n");
    expected.push_str(&format!(
        "### {} ({} tokens, relevance: {:.2}){}\n\n```{}\n{}\n```\n\n",
        "`src/a.rs`", 12, 0.85f64, " — a, b", "rs", "fn a() {}"
    ));
    expected.push_str(&format!(
        "### {} ({} tokens, relevance: {:.2}){}\n\n```{}\n{}\n```\n\n",
        "`lib/b.py` (lines 3-4)", 7, 0.05f64, "", "py", "x = 1\ny = 2"
    ));
    expected.push_str("---\n\n## Bridge Context\n\n");
    expected.push_str("- `c` in `c.ts`: `function c(): void`\n");
    expected.push('\n');
    expected.push_str("---\n\n## Supporting Files (skeletonized)\n\n");
    expected.push_str("### `pkg/.hidden` (3 tokens, minimal skeleton)\n\n```\nfunc d()\n```\n\n");
    expected.push_str("---\n\n## Related Code Clusters\n\n");
    expected.push_str(
        "**Cluster: `k1`**\n- Detailed above: `src/a.rs`\n- Also matched (similar structure):\n",
    );
    expected.push_str("  - `e.rs` (node: `e`)\n");
    expected.push('\n');
    expected.push_str("---\n\n## ⚠️ Context Truncated\n\n");
    expected.push_str("The following files matched the query but were omitted to stay within the token budget. Use specific `read_file` or narrower search queries to inspect them:\n\n");
    expected.push_str(&format!("- `{}` (score: {:.2})\n", "f.md", 12.34f64));

    assert_eq!(assemble_capsule(&allocation, "find a", Intent::Explore), expected);
}

#[test]
fn capsule_header_only_when_nothing_allocated() {
    assert_eq!(
        assemble_capsule(&empty_allocation(), "q", Intent::Debug),
        "# Context Capsule\n\n**Query:** q\n**Intent:** debug\n**Token usage:** ~0 tokens (0 pivot excerpts, 0 bridges, 0 skeleton files)\n\n"
    );
}

#[test]
fn long_bridge_signatures_are_cut_after_200_bytes() {
    let mut allocation = empty_allocation();
    let sig = format!("{}{}", "é".repeat(100), "tail");
    allocation.bridges.push(BridgeExcerpt {
        file_id: 1,
        path: "x.rs".to_string(),
        signature: sig.clone(),
        tokens: 1,
        node_name: "x".to_string(),
    });
    let out = assemble_capsule(&allocation, "q", Intent::Modify);
    let line = format!("- `x` in `x.rs`: `{}…`\n", &sig[..200]);
    assert!(out.contains(&line));
    assert!(!out.contains("tail"));
}

#[test]
fn external_references_grouped_by_workspace_name() {
    assert_eq!(external_references(&[]), "");
    let hits = vec![
        ("zeta".to_string(), "z::run".to_string(), "function".to_string(), 91u32),
        ("alpha".to_string(), "Parser".to_string(), "struct".to_string(), 5),
        ("zeta".to_string(), "helper".to_string(), "function".to_string(), 120),
    ];
    assert_eq!(
        external_references(&hits),
        "\n---\n\n## External References\n\n### External: alpha\n\n- `alpha/Parser` (struct) — score: 0.05\n\n### External: zeta\n\n- `zeta/z::run` (function) — score: 0.91\n- `zeta/helper` (function) — score: 1.20\n\n"
    );
}

#[test]
fn intent_override_names() {
    assert_eq!(intent_for_override("blast_radius"), Ok(Intent::BlastRadius));
    assert_eq!(intent_for_override("debug"), Ok(Intent::Debug));
    assert_eq!(
        intent_for_override("fix"),
        Err("Invalid intent override 'fix'. Valid values: debug, blast_radius, modify, explore".to_string())
    );
}
