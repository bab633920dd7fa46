//! Greedy allocation of a capsule's token budget: excerpts of the best files
//! first (pivots), then signatures of their graph neighbours (bridges), then
//! skeletons of the other matching files, each within its share.
use vstd::prelude::*;

use crate::capsule::budget::{
    extract_lines, extract_lines_all, line_excerpt, merge_ranges, merged_ranges, merged_view, pivot_padding,
    range_view, text_lines, use_full_file, usable_budget, fallback_levels, preferred_level, grouping, grouping_step,
    start_grouping, rollup_view, BudgetAllocation, ClusterRollup, GroupingView, RankedMatch, RollupView,
    BridgeExcerpt, MergedView, PivotExcerpt, RangeView, SkeletonFile,
    UnallocatedMatch,
};
use crate::indexer::scanner::{extension_opt, path_extension};
use crate::db::records::NodeRange;
use crate::text::{dedup, insert_by, lemma_insert_by_shape, sort_by, string_views};
use crate::types::{language_of_extension, DetailLevel, Intent, Language};

verus! {

/// The knobs of the allocation.
#[derive(Debug, Clone, Copy)]
pub struct BudgetConfig {
    /// Percent of the budget kept back for the capsule's own text.
    pub overhead_reserve_pct: usize,
    /// Percent of the usable budget for pivots.
    pub pivot_budget_pct: usize,
    /// Percent of the usable budget for bridges; skeletons get the rest.
    pub bridge_budget_pct: usize,
    pub max_pivot_files: usize,
    pub min_pivot_budget: usize,
    /// Lines of context around a matched symbol.
    pub context_padding: usize,
    pub min_bridge_budget: usize,
    pub max_skeleton_files: usize,
    pub min_skeleton_budget: usize,
}

/// A search result as the allocation sees it.
#[derive(Debug, Clone)]
pub struct SearchHit {
    pub node_id: i64,
    pub file_id: i64,
    pub file_path: String,
    pub name: String,
    /// Relevance in hundredths.
    pub score: u64,
    pub cluster_id: Option<String>,
}

// ---------------------------------------------------------------------------
// File scores and order
// ---------------------------------------------------------------------------

/// The hit that stands for file `f`: among the hits with the highest score
/// for the file, the last one.
pub open spec fn best_hit(hits: Seq<SearchHit>, f: i64) -> Option<int>
    decreases hits.len(),
{
    if hits.len() == 0 {
        None
    } else {
        let prev = best_hit(hits.drop_last(), f);
        let i = hits.len() - 1;
        if hits[i].file_id != f {
            prev
        } else {
            match prev {
                None => Some(i),
                Some(j) => if hits[i].score >= hits[j].score {
                    Some(i)
                } else {
                    prev
                },
            }
        }
    }
}

/// A file's score: that of its best hit, 0 without one.
pub open spec fn file_score(hits: Seq<SearchHit>, f: i64) -> u64 {
    match best_hit(hits, f) {
        Some(j) => hits[j].score,
        None => 0,
    }
}

/// Finds [`best_hit`].
pub fn best_hit_of(hits: &Vec<SearchHit>, f: i64) -> (r: Option<usize>)
    ensures
        match r {
            Some(j) => best_hit(hits@, f) == Some(j as int) && j < hits@.len(),
            None => best_hit(hits@, f) is None,
        },
{
    let mut best: Option<usize> = None;
    let mut i: usize = 0;
    while i < hits.len()
        invariant
            i <= hits@.len(),
            match best {
                Some(j) => best_hit(hits@.take(i as int), f) == Some(j as int) && j < i,
                None => best_hit(hits@.take(i as int), f) is None,
            },
        decreases hits.len() - i,
    {
        assert(hits@.take(i as int + 1).drop_last() =~= hits@.take(i as int));
        if hits[i].file_id == f {
            match best {
                None => {
                    best = Some(i);
                },
                Some(j) => {
                    if hits[i].score >= hits[j].score {
                        best = Some(i);
                    }
                },
            }
        }
        i += 1;
    }
    assert(hits@.take(hits@.len() as int) =~= hits@);
    best
}

/// Orders files by descending score, keeping their order otherwise.
pub open spec fn score_desc(hits: Seq<SearchHit>) -> spec_fn(i64, i64) -> bool {
    |a: i64, b: i64| file_score(hits, a) >= file_score(hits, b)
}

/// The files of the matched ranges, each once in order of first appearance,
/// then sorted stably by descending score.
pub open spec fn file_order(hits: Seq<SearchHit>, ranges: Seq<NodeRange>) -> Seq<i64> {
    sort_by(dedup(ranges.map_values(|r: NodeRange| r.file_id)), score_desc(hits))
}

fn contains_i64(v: &Vec<i64>, x: i64) -> (r: bool)
    ensures
        r == v@.contains(x),
{
    let mut i: usize = 0;
    while i < v.len()
        invariant
            i <= v.len(),
            forall|j: int| 0 <= j < i ==> v@[j] != x,
        decreases v.len() - i,
    {
        if v[i] == x {
            assert(v@[i as int] == x);
            return true;
        }
        i += 1;
    }
    false
}

fn score_of(hits: &Vec<SearchHit>, f: i64) -> (r: u64)
    ensures
        r == file_score(hits@, f),
{
    match best_hit_of(hits, f) {
        Some(j) => hits[j].score,
        None => 0,
    }
}

/// Computes [`file_order`].
pub fn order_files(hits: &Vec<SearchHit>, ranges: &Vec<NodeRange>) -> (r: Vec<i64>)
    ensures
        r@ == file_order(hits@, ranges@),
        forall|i: int, j: int|
            0 <= i < j < r@.len() ==> file_score(hits@, #[trigger] r@[i]) >= file_score(hits@, #[trigger] r@[j]),
        r@.no_duplicates(),
{
    proof {
        lemma_file_order_ranked(hits@, ranges@);
    }
    let ghost all = ranges@.map_values(|r: NodeRange| r.file_id);
    let mut uniq: Vec<i64> = Vec::new();
    let mut i: usize = 0;
    while i < ranges.len()
        invariant
            i <= ranges@.len(),
            all == ranges@.map_values(|r: NodeRange| r.file_id),
            uniq@ == dedup(all.take(i as int)),
        decreases ranges.len() - i,
    {
        assert(all.take(i as int + 1).drop_last() =~= all.take(i as int));
        let f = ranges[i].file_id;
        if !contains_i64(&uniq, f) {
            uniq.push(f);
        }
        i += 1;
    }
    assert(all.take(ranges@.len() as int) =~= all);
    let ghost d = uniq@;
    let ghost le = score_desc(hits@);
    let mut sorted: Vec<i64> = Vec::new();
    let mut sorted_scores: Vec<u64> = Vec::new();
    let mut k: usize = 0;
    assert(sorted@ =~= sort_by(d.take(0), le));
    while k < uniq.len()
        invariant
            k <= uniq@.len(),
            d == uniq@,
            le == score_desc(hits@),
            sorted@ == sort_by(d.take(k as int), le),
            sorted_scores@.len() == sorted@.len(),
            forall|t: int| 0 <= t < sorted@.len() ==> sorted_scores@[t] == file_score(hits@, #[trigger] sorted@[t]),
        decreases uniq.len() - k,
    {
        let x = uniq[k];
        let sx = score_of(hits, x);
        assert(d.take(k as int + 1).drop_last() =~= d.take(k as int));
        let ghost s = sorted@;
        let mut m: usize = sorted.len();
        while m > 0 && sorted_scores[m - 1] < sx
            invariant
                m <= sorted@.len(),
                s == sorted@,
                sorted_scores@.len() == sorted@.len(),
                forall|t: int| 0 <= t < sorted@.len() ==> sorted_scores@[t] == file_score(hits@, #[trigger] sorted@[t]),
                sx == file_score(hits@, x),
                le == score_desc(hits@),
                forall|t: int| m <= t < sorted@.len() ==> !le(#[trigger] s[t], x),
            decreases m,
        {
            m -= 1;
        }
        proof {
            lemma_insert_by_shape(s, x, le, m as int);
        }
        let ghost ss = sorted_scores@;
        sorted.insert(m, x);
        sorted_scores.insert(m, sx);
        assert(sorted@ =~= s.take(m as int) + seq![x] + s.skip(m as int));
        assert(sorted_scores@ =~= ss.take(m as int) + seq![sx] + ss.skip(m as int));
        assert forall|t: int| 0 <= t < sorted@.len() implies sorted_scores@[t] == file_score(
            hits@,
            #[trigger] sorted@[t],
        ) by {
            if t < m {
                assert(sorted@[t] == s[t]);
            } else if t > m {
                assert(sorted@[t] == s[t - 1]);
                assert(sorted_scores@[t] == ss[t - 1]);
            }
        }
        k += 1;
    }
    assert(d.take(uniq@.len() as int) =~= d);
    sorted
}

// ---------------------------------------------------------------------------
// Pivot candidates
// ---------------------------------------------------------------------------

/// One candidate excerpt of a pivot file.
#[derive(Debug)]
pub struct PivotPiece {
    pub content: String,
    pub line_start: usize,
    pub line_end: usize,
    pub is_full_file: bool,
    pub node_names: Vec<String>,
    /// The matched symbols the excerpt covers.
    pub covers: Vec<i64>,
}

/// A pivot file with its candidate excerpts (none when it could not be read).
#[derive(Debug)]
pub struct PivotFile {
    pub file_id: i64,
    pub path: String,
    /// Relevance in hundredths.
    pub score: u64,
    pub pieces: Vec<PivotPiece>,
}

pub struct PieceView {
    pub content: Seq<char>,
    pub line_start: int,
    pub line_end: int,
    pub is_full_file: bool,
    pub names: Seq<Seq<char>>,
    pub covers: Seq<i64>,
}

pub struct PivotFileView {
    pub file_id: i64,
    pub path: Seq<char>,
    pub score: u64,
    pub pieces: Seq<PieceView>,
}

pub open spec fn piece_view(p: PivotPiece) -> PieceView {
    PieceView {
        content: p.content@,
        line_start: p.line_start as int,
        line_end: p.line_end as int,
        is_full_file: p.is_full_file,
        names: string_views(p.node_names@),
        covers: p.covers@,
    }
}

pub open spec fn pivot_file_view(f: PivotFile) -> PivotFileView {
    PivotFileView {
        file_id: f.file_id,
        path: f.path@,
        score: f.score,
        pieces: piece_views(f.pieces@),
    }
}

pub open spec fn piece_views(ps: Seq<PivotPiece>) -> Seq<PieceView> {
    ps.map_values(|p: PivotPiece| piece_view(p))
}

pub open spec fn range_names(rs: Seq<NodeRange>) -> Seq<Seq<char>> {
    rs.map_values(|r: NodeRange| r.name@)
}

pub open spec fn range_ids(rs: Seq<NodeRange>) -> Seq<i64> {
    rs.map_values(|r: NodeRange| r.node_id)
}

pub open spec fn raw_ranges(rs: Seq<NodeRange>) -> Seq<RangeView> {
    rs.map_values(|r: NodeRange| raw_range(r))
}

pub open spec fn tuple_views(v: Seq<(usize, usize, String)>) -> Seq<RangeView> {
    v.map_values(|x: (usize, usize, String)| range_view(x))
}

pub open spec fn merged_views(v: Seq<crate::capsule::budget::MergedRange>) -> Seq<MergedView> {
    v.map_values(|m: crate::capsule::budget::MergedRange| merged_view(m))
}

/// The excerpt of `content` for merged range `m` of matched ranges `rs`.
pub open spec fn excerpt_piece(content: Seq<char>, rs: Seq<NodeRange>, m: MergedView) -> PieceView {
    PieceView {
        content: line_excerpt(content, m.start, m.end),
        line_start: m.start,
        line_end: m.end,
        is_full_file: false,
        names: m.names,
        covers: covered_ids(rs, m.start, m.end),
    }
}

pub open spec fn excerpt_pieces(content: Seq<char>, rs: Seq<NodeRange>, ms: Seq<MergedView>) -> Seq<PieceView> {
    ms.map_values(|m: MergedView| excerpt_piece(content, rs, m))
}

/// The matched ranges lying in file `f`, in order.
pub open spec fn ranges_of_file(rs: Seq<NodeRange>, f: i64) -> Seq<NodeRange>
    decreases rs.len(),
{
    if rs.len() == 0 {
        seq![]
    } else if rs.last().file_id == f {
        ranges_of_file(rs.drop_last(), f).push(rs.last())
    } else {
        ranges_of_file(rs.drop_last(), f)
    }
}

/// A matched range as (first line, last line, name), the stored line numbers
/// read as `usize`.
pub open spec fn raw_range(r: NodeRange) -> RangeView {
    ((r.line_start as usize) as int, (r.line_end as usize) as int, r.name@)
}

/// The matched symbols whose lines lie within `start..=end`.
pub open spec fn covered_ids(rs: Seq<NodeRange>, start: int, end: int) -> Seq<i64>
    decreases rs.len(),
{
    if rs.len() == 0 {
        seq![]
    } else if (rs.last().line_start as usize) >= start && (rs.last().line_end as usize) <= end {
        covered_ids(rs.drop_last(), start, end).push(rs.last().node_id)
    } else {
        covered_ids(rs.drop_last(), start, end)
    }
}

/// The number of symbols of file `f` as the index reports it (the first
/// entry for the file), 0 when unknown.
pub open spec fn node_count_for(counts: Seq<(i64, u64)>, f: i64) -> u64
    decreases counts.len(),
{
    if counts.len() == 0 {
        0
    } else if counts[0].0 == f {
        counts[0].1
    } else {
        node_count_for(counts.drop_first(), f)
    }
}

/// The candidate excerpts of a pivot file with matched ranges `rs` and text
/// `content`: the whole file when [`use_full_file`] says so, else one
/// excerpt per merged range (padded as [`pivot_padding`] says).
pub open spec fn planned_pieces(
    rs: Seq<NodeRange>,
    content: Seq<char>,
    node_count: u64,
    intent: Intent,
    padding: usize,
) -> Seq<PieceView> {
    let total = text_lines(content).len() as int;
    if intent != Intent::BlastRadius && (total < 50 || ((node_count as usize) > 0 && rs.len() * 2 >= (
    node_count as usize))) {
        seq![
            PieceView {
                content,
                line_start: 1,
                line_end: total,
                is_full_file: true,
                names: range_names(rs),
                covers: range_ids(rs),
            },
        ]
    } else {
        let pad = if intent == Intent::BlastRadius && padding > 2 {
            2int
        } else {
            padding as int
        };
        excerpt_pieces(content, rs, merged_ranges(raw_ranges(rs), total, pad))
    }
}

/// The plan of pivot file `f`: its path (that of its first matched range),
/// its score and its candidate excerpts.
pub open spec fn pivot_file_plan(
    hits: Seq<SearchHit>,
    ranges: Seq<NodeRange>,
    counts: Seq<(i64, u64)>,
    f: i64,
    content: Option<Seq<char>>,
    intent: Intent,
    padding: usize,
) -> PivotFileView {
    let rs = ranges_of_file(ranges, f);
    PivotFileView {
        file_id: f,
        path: rs[0].file_path@,
        score: file_score(hits, f),
        pieces: match content {
            Some(c) => planned_pieces(rs, c, node_count_for(counts, f), intent, padding),
            None => seq![],
        },
    }
}

/// What merging needs of a file's ranges and text to stay within `usize`.
pub open spec fn plannable(ranges: Seq<NodeRange>, content: Option<Seq<char>>, padding: usize) -> bool {
    &&& forall|i: int| 0 <= i < ranges.len() ==> (#[trigger] ranges[i].line_end as usize) + padding <= usize::MAX
    &&& content matches Some(c) ==> text_lines(c).len() < usize::MAX
}

fn copy_opt_string(o: &Option<String>) -> (r: Option<String>)
    ensures
        r == *o,
{
    match o {
        Some(x) => Some(x.clone()),
        None => None,
    }
}

fn copy_range(r: &NodeRange) -> (c: NodeRange)
    ensures
        c == *r,
{
    NodeRange {
        node_id: r.node_id,
        file_id: r.file_id,
        file_path: r.file_path.clone(),
        line_start: r.line_start,
        line_end: r.line_end,
        kind: r.kind.clone(),
        name: r.name.clone(),
        signature: copy_opt_string(&r.signature),
    }
}

fn ranges_in_file(ranges: &Vec<NodeRange>, f: i64) -> (r: Vec<NodeRange>)
    ensures
        r@ == ranges_of_file(ranges@, f),
{
    let mut out: Vec<NodeRange> = Vec::new();
    let mut i: usize = 0;
    while i < ranges.len()
        invariant
            i <= ranges@.len(),
            out@ == ranges_of_file(ranges@.take(i as int), f),
        decreases ranges.len() - i,
    {
        assert(ranges@.take(i as int + 1).drop_last() =~= ranges@.take(i as int));
        if ranges[i].file_id == f {
            out.push(copy_range(&ranges[i]));
        }
        i += 1;
    }
    assert(ranges@.take(ranges@.len() as int) =~= ranges@);
    out
}

fn node_count_of(counts: &Vec<(i64, u64)>, f: i64) -> (r: u64)
    ensures
        r == node_count_for(counts@, f),
{
    let mut i: usize = 0;
    assert(counts@.skip(0) =~= counts@);
    while i < counts.len()
        invariant
            i <= counts@.len(),
            node_count_for(counts@, f) == node_count_for(counts@.skip(i as int), f),
        decreases counts.len() - i,
    {
        assert(counts@.skip(i as int).drop_first() =~= counts@.skip(i as int + 1));
        if counts[i].0 == f {
            return counts[i].1;
        }
        i += 1;
    }
    0
}

fn covered_in(rs: &Vec<NodeRange>, start: usize, end: usize) -> (r: Vec<i64>)
    ensures
        r@ == covered_ids(rs@, start as int, end as int),
{
    let mut out: Vec<i64> = Vec::new();
    let mut i: usize = 0;
    while i < rs.len()
        invariant
            i <= rs@.len(),
            out@ == covered_ids(rs@.take(i as int), start as int, end as int),
        decreases rs.len() - i,
    {
        assert(rs@.take(i as int + 1).drop_last() =~= rs@.take(i as int));
        if (rs[i].line_start as usize) >= start && (rs[i].line_end as usize) <= end {
            out.push(rs[i].node_id);
        }
        i += 1;
    }
    assert(rs@.take(rs@.len() as int) =~= rs@);
    out
}

fn names_and_ids(rs: &Vec<NodeRange>) -> (r: (Vec<String>, Vec<i64>))
    ensures
        string_views(r.0@) == range_names(rs@),
        r.1@ == range_ids(rs@),
{
    let mut names: Vec<String> = Vec::new();
    let mut ids: Vec<i64> = Vec::new();
    let mut i: usize = 0;
    while i < rs.len()
        invariant
            i <= rs@.len(),
            string_views(names@) == range_names(rs@.take(i as int)),
            ids@ == range_ids(rs@.take(i as int)),
        decreases rs.len() - i,
    {
        assert(rs@.take(i as int + 1) =~= rs@.take(i as int).push(rs@[i as int]));
        let ghost old_names = names@;
        let nm = rs[i].name.clone();
        assert(nm == rs@[i as int].name);
        names.push(nm);
        ids.push(rs[i].node_id);
        assert(names@ == old_names.push(rs@[i as int].name));
        assert(string_views(names@) =~= string_views(old_names).push(rs@[i as int].name@));
        assert(range_names(rs@.take(i as int + 1)) =~= range_names(rs@.take(i as int)).push(rs@[i as int].name@));
        assert(string_views(names@) =~= range_names(rs@.take(i as int + 1)));
        assert(ids@ =~= range_ids(rs@.take(i as int + 1)));
        i += 1;
    }
    assert(rs@.take(rs@.len() as int) =~= rs@);
    (names, ids)
}

/// Builds [`pivot_file_plan`] for a file that has matched ranges.
pub fn plan_pivot_file(
    hits: &Vec<SearchHit>,
    ranges: &Vec<NodeRange>,
    counts: &Vec<(i64, u64)>,
    f: i64,
    content: &Option<String>,
    intent: Intent,
    padding: usize,
) -> (r: PivotFile)
    requires
        ranges_of_file(ranges@, f).len() > 0,
        plannable(ranges_of_file(ranges@, f), match content {
            Some(c) => Some(c@),
            None => None,
        }, padding),
    ensures
        pivot_file_view(r) == pivot_file_plan(hits@, ranges@, counts@, f, match content {
            Some(c) => Some(c@),
            None => None,
        }, intent, padding),
{
    let rs = ranges_in_file(ranges, f);
    let path = rs[0].file_path.clone();
    let score = score_of(hits, f);
    let mut pieces: Vec<PivotPiece> = Vec::new();
    match content {
        None => {
            assert(piece_views(pieces@) =~= seq![]);
        },
        Some(text) => {
            let lines = extract_lines_all(text.as_str());
            let total = lines.len();
            let node_count = node_count_of(counts, f);
            if use_full_file(intent, total, node_count as usize, rs.len()) {
                let (names, ids) = names_and_ids(&rs);
                pieces.push(
                    PivotPiece {
                        content: text.clone(),
                        line_start: 1,
                        line_end: total,
                        is_full_file: true,
                        node_names: names,
                        covers: ids,
                    },
                );
                assert(piece_views(pieces@) =~= planned_pieces(rs@, text@, node_count, intent, padding));
            } else {
                let pad = pivot_padding(intent, padding);
                let mut raw: Vec<(usize, usize, String)> = Vec::new();
                let mut i: usize = 0;
                while i < rs.len()
                    invariant
                        i <= rs@.len(),
                        rs@ == ranges_of_file(ranges@, f),
                        tuple_views(raw@) == raw_ranges(rs@.take(i as int)),
                        forall|j: int| 0 <= j < raw@.len() ==> (#[trigger] raw@[j]).1 == (rs@[j].line_end as usize),
                    decreases rs.len() - i,
                {
                    assert(rs@.take(i as int + 1) =~= rs@.take(i as int).push(rs@[i as int]));
                    let ghost old_raw = raw@;
                    let nm = rs[i].name.clone();
                    let tup = (rs[i].line_start as usize, rs[i].line_end as usize, nm);
                    assert(range_view(tup) == raw_range(rs@[i as int]));
                    raw.push(tup);
                    assert(tuple_views(raw@) =~= tuple_views(old_raw).push(raw_range(rs@[i as int])));
                    assert(raw_ranges(rs@.take(i as int + 1)) =~= raw_ranges(rs@.take(i as int)).push(
                        raw_range(rs@[i as int]),
                    ));
                    i += 1;
                }
                assert(rs@.take(rs@.len() as int) =~= rs@);
                let merged = merge_ranges(raw.as_slice(), total, pad);
                let ghost mv = merged_views(merged@);
                assert(tuple_views(raw@) == raw_ranges(rs@));
                assert(mv =~= merged_ranges(raw_ranges(rs@), total as int, pad as int));
                let mut k: usize = 0;
                while k < merged.len()
                    invariant
                        k <= merged@.len(),
                        mv == merged_views(merged@),
                        rs@ == ranges_of_file(ranges@, f),
                        piece_views(pieces@) == excerpt_pieces(text@, rs@, mv.take(k as int)),
                    decreases merged.len() - k,
                {
                    let m = &merged[k];
                    let excerpt = extract_lines(text.as_str(), m.line_start, m.line_end);
                    let covers = covered_in(&rs, m.line_start, m.line_end);
                    let mut names: Vec<String> = Vec::new();
                    let mut t: usize = 0;
                    while t < m.node_names.len()
                        invariant
                            t <= m.node_names@.len(),
                            string_views(names@) == string_views(m.node_names@.take(t as int)),
                        decreases m.node_names.len() - t,
                    {
                        assert(m.node_names@.take(t as int + 1) =~= m.node_names@.take(t as int).push(
                            m.node_names@[t as int],
                        ));
                        let ghost old_names = names@;
                        let nm = m.node_names[t].clone();
                        assert(nm == m.node_names@[t as int]);
                        names.push(nm);
                        assert(string_views(names@) =~= string_views(old_names).push(m.node_names@[t as int]@));
                        assert(string_views(m.node_names@.take(t as int + 1)) =~= string_views(
                            m.node_names@.take(t as int),
                        ).push(m.node_names@[t as int]@));
                        t += 1;
                    }
                    assert(m.node_names@.take(m.node_names@.len() as int) =~= m.node_names@);
                    let ghost before = piece_views(pieces@);
                    pieces.push(
                        PivotPiece {
                            content: excerpt,
                            line_start: m.line_start,
                            line_end: m.line_end,
                            is_full_file: false,
                            node_names: names,
                            covers,
                        },
                    );
                    assert(piece_views(pieces@) =~= before.push(piece_view(pieces@[k as int])));
                    assert(mv.take(k as int + 1) =~= mv.take(k as int).push(mv[k as int]));
                    assert(excerpt_pieces(text@, rs@, mv.take(k as int + 1)) =~= excerpt_pieces(
                        text@,
                        rs@,
                        mv.take(k as int),
                    ).push(excerpt_piece(text@, rs@, mv[k as int])));
                    k += 1;
                }
                assert(mv.take(merged@.len() as int) =~= mv);
                assert(piece_views(pieces@) == planned_pieces(rs@, text@, node_count, intent, padding));
            }
            assert(piece_views(pieces@) == planned_pieces(rs@, text@, node_count, intent, padding));
        },
    }
    PivotFile { file_id: f, path, score, pieces }
}

// ---------------------------------------------------------------------------
// Choosing pivots
// ---------------------------------------------------------------------------

pub struct PivotView {
    pub file_id: i64,
    pub path: Seq<char>,
    pub content: Seq<char>,
    pub tokens: int,
    pub score: u64,
    pub line_start: int,
    pub line_end: int,
    pub is_full_file: bool,
    pub names: Seq<Seq<char>>,
}

pub open spec fn pivot_view(p: PivotExcerpt) -> PivotView {
    PivotView {
        file_id: p.file_id,
        path: p.path@,
        content: p.content@,
        tokens: p.tokens as int,
        score: p.relevance_score,
        line_start: p.line_start as int,
        line_end: p.line_end as int,
        is_full_file: p.is_full_file,
        names: string_views(p.node_names@),
    }
}

pub open spec fn pivot_views(ps: Seq<PivotExcerpt>) -> Seq<PivotView> {
    ps.map_values(|p: PivotExcerpt| pivot_view(p))
}

/// Where the pivot phase stands: the budget left, whether it stopped, the
/// files it went through, the excerpts taken and the symbols they cover.
pub struct PivotRun {
    pub remaining: int,
    pub stopped: bool,
    pub seen: Seq<i64>,
    pub pivots: Seq<PivotView>,
    pub included: Seq<i64>,
}

/// The first `k` excerpts of a file offered in turn: each is taken when its
/// token count fits what is left.
pub open spec fn take_pieces(st: PivotRun, plan: PivotFileView, toks: Seq<usize>, k: int) -> PivotRun
    decreases k,
{
    if k <= 0 {
        st
    } else {
        let s = take_pieces(st, plan, toks, k - 1);
        let pc = plan.pieces[k - 1];
        let t = toks[k - 1] as int;
        if t <= s.remaining {
            PivotRun {
                remaining: s.remaining - t,
                pivots: s.pivots.push(
                    PivotView {
                        file_id: plan.file_id,
                        path: plan.path,
                        content: pc.content,
                        tokens: t,
                        score: plan.score,
                        line_start: pc.line_start,
                        line_end: pc.line_end,
                        is_full_file: pc.is_full_file,
                        names: pc.names,
                    },
                ),
                included: s.included + pc.covers,
                ..s
            }
        } else {
            s
        }
    }
}

/// One pivot file: once less than `min_budget` is left the phase stops;
/// otherwise the file counts as placed and its excerpts are offered.
pub open spec fn visit_pivot_file(st: PivotRun, plan: PivotFileView, toks: Seq<usize>, min_budget: int) -> PivotRun {
    if st.stopped || st.remaining < min_budget {
        PivotRun { stopped: true, ..st }
    } else {
        take_pieces(PivotRun { seen: st.seen.push(plan.file_id), ..st }, plan, toks, plan.pieces.len() as int)
    }
}

/// The pivot phase over the first `n` files.
pub open spec fn pivot_run(budget: int, plans: Seq<PivotFileView>, toks: Seq<Seq<usize>>, min_budget: int, n: int) -> PivotRun
    decreases n,
{
    if n <= 0 {
        PivotRun { remaining: budget, stopped: false, seen: seq![], pivots: seq![], included: seq![] }
    } else {
        visit_pivot_file(pivot_run(budget, plans, toks, min_budget, n - 1), plans[n - 1], toks[n - 1], min_budget)
    }
}

pub open spec fn pivot_file_views(fs: Seq<PivotFile>) -> Seq<PivotFileView> {
    fs.map_values(|f: PivotFile| pivot_file_view(f))
}

/// Token counts given for every candidate excerpt.
pub open spec fn counts_fit(plans: Seq<PivotFile>, toks: Seq<Vec<usize>>) -> bool {
    &&& toks.len() == plans.len()
    &&& forall|i: int| 0 <= i < plans.len() ==> (#[trigger] toks[i])@.len() == plans[i].pieces@.len()
}

pub open spec fn count_views(toks: Seq<Vec<usize>>) -> Seq<Seq<usize>> {
    toks.map_values(|v: Vec<usize>| v@)
}

pub open spec fn pivot_tokens(ps: Seq<PivotView>) -> int
    decreases ps.len(),
{
    if ps.len() == 0 {
        0
    } else {
        pivot_tokens(ps.drop_last()) + ps.last().tokens
    }
}

/// What the pivot phase chose.
#[derive(Debug)]
pub struct PivotSelection {
    pub pivots: Vec<PivotExcerpt>,
    /// The files the phase went through.
    pub seen_files: Vec<i64>,
    /// The matched symbols the chosen excerpts cover.
    pub included: Vec<i64>,
    /// The pivot budget left.
    pub remaining: usize,
}

fn copy_strings(v: &Vec<String>) -> (r: Vec<String>)
    ensures
        string_views(r@) == string_views(v@),
{
    let mut out: Vec<String> = Vec::new();
    let mut i: usize = 0;
    while i < v.len()
        invariant
            i <= v@.len(),
            string_views(out@) == string_views(v@.take(i as int)),
        decreases v.len() - i,
    {
        let ghost o = out@;
        let x = v[i].clone();
        out.push(x);
        assert(string_views(out@) =~= string_views(o).push(v@[i as int]@));
        assert(string_views(v@.take(i as int + 1)) =~= string_views(v@.take(i as int)).push(v@[i as int]@));
        i += 1;
    }
    assert(v@.take(v@.len() as int) =~= v@);
    out
}

/// Offers the files in order, as [`pivot_run`] says: a file is passed over
/// with all after it once less than `min_budget` tokens are left; otherwise
/// each of its excerpts is taken when its count fits what is left.
pub fn select_pivots(plans: &Vec<PivotFile>, tokens: &Vec<Vec<usize>>, budget: usize, min_budget: usize) -> (r: PivotSelection)
    requires
        counts_fit(plans@, tokens@),
    ensures
        ({
            let run = pivot_run(
                budget as int,
                pivot_file_views(plans@),
                count_views(tokens@),
                min_budget as int,
                plans@.len() as int,
            );
            &&& pivot_views(r.pivots@) == run.pivots
            &&& r.seen_files@ == run.seen
            &&& r.included@ == run.included
            &&& r.remaining == run.remaining
        }),
        pivot_tokens(pivot_views(r.pivots@)) + r.remaining == budget,
        r.remaining <= budget,
{
    let ghost pv = pivot_file_views(plans@);
    let ghost tv = count_views(tokens@);
    let mut pivots: Vec<PivotExcerpt> = Vec::new();
    let mut seen: Vec<i64> = Vec::new();
    let mut included: Vec<i64> = Vec::new();
    let mut remaining = budget;
    let mut stopped = false;
    let mut i: usize = 0;
    while i < plans.len()
        invariant
            i <= plans@.len(),
            counts_fit(plans@, tokens@),
            pv == pivot_file_views(plans@),
            tv == count_views(tokens@),
            ({
                let run = pivot_run(budget as int, pv, tv, min_budget as int, i as int);
                &&& pivot_views(pivots@) == run.pivots
                &&& seen@ == run.seen
                &&& included@ == run.included
                &&& remaining == run.remaining
                &&& stopped == run.stopped
            }),
            pivot_tokens(pivot_views(pivots@)) + remaining == budget,
            remaining <= budget,
        decreases plans.len() - i,
    {
        let plan = &plans[i];
        let toks = &tokens[i];
        let ghost before = pivot_run(budget as int, pv, tv, min_budget as int, i as int);
        assert(pv[i as int] == pivot_file_view(*plan));
        assert(tv[i as int] == toks@);
        if stopped || remaining < min_budget {
            stopped = true;
        } else {
            seen.push(plan.file_id);
            let ghost st0 = PivotRun { seen: before.seen.push(plan.file_id), ..before };
            let mut k: usize = 0;
            while k < plan.pieces.len()
                invariant
                    k <= plan.pieces@.len(),
                    toks@.len() == plan.pieces@.len(),
                    pv[i as int] == pivot_file_view(*plan),
                    ({
                        let run = take_pieces(st0, pv[i as int], toks@, k as int);
                        &&& pivot_views(pivots@) == run.pivots
                        &&& seen@ == run.seen
                        &&& included@ == run.included
                        &&& remaining == run.remaining
                        &&& stopped == run.stopped
                    }),
                    pivot_tokens(pivot_views(pivots@)) + remaining == budget,
                    remaining <= budget,
                decreases plan.pieces.len() - k,
            {
                let pc = &plan.pieces[k];
                let t = toks[k];
                assert(pv[i as int].pieces[k as int] == piece_view(*pc));
                if t <= remaining {
                    let ghost o = pivot_views(pivots@);
                    let ghost oi = included@;
                    let names = copy_strings(&pc.node_names);
                    let e = PivotExcerpt {
                        file_id: plan.file_id,
                        path: plan.path.clone(),
                        content: pc.content.clone(),
                        tokens: t,
                        relevance_score: plan.score,
                        line_start: pc.line_start,
                        line_end: pc.line_end,
                        is_full_file: pc.is_full_file,
                        node_names: names,
                    };
                    pivots.push(e);
                    assert(pivot_views(pivots@) =~= o.push(pivot_view(e)));
                    assert(pivot_views(pivots@).drop_last() =~= o);
                    remaining = remaining - t;
                    let mut c: usize = 0;
                    while c < pc.covers.len()
                        invariant
                            c <= pc.covers@.len(),
                            included@ == oi + pc.covers@.take(c as int),
                        decreases pc.covers.len() - c,
                    {
                        included.push(pc.covers[c]);
                        assert(pc.covers@.take(c as int + 1) =~= pc.covers@.take(c as int).push(pc.covers@[c as int]));
                        assert(included@ =~= oi + pc.covers@.take(c as int + 1));
                        c += 1;
                    }
                    assert(pc.covers@.take(pc.covers@.len() as int) =~= pc.covers@);
                }
                k += 1;
            }
        }
        i += 1;
    }
    PivotSelection { pivots, seen_files: seen, included, remaining }
}

// ---------------------------------------------------------------------------
// Choosing bridges
// ---------------------------------------------------------------------------

pub struct BridgeView {
    pub file_id: i64,
    pub path: Seq<char>,
    pub signature: Seq<char>,
    pub tokens: int,
    pub node_name: Seq<char>,
}

pub open spec fn bridge_view(b: BridgeExcerpt) -> BridgeView {
    BridgeView {
        file_id: b.file_id,
        path: b.path@,
        signature: b.signature@,
        tokens: b.tokens as int,
        node_name: b.node_name@,
    }
}

pub open spec fn bridge_views(bs: Seq<BridgeExcerpt>) -> Seq<BridgeView> {
    bs.map_values(|b: BridgeExcerpt| bridge_view(b))
}

/// What a bridge shows of a symbol: its signature, else its name.
pub open spec fn bridge_text(r: NodeRange) -> Seq<char> {
    match r.signature {
        Some(sig) => sig@,
        None => r.name@,
    }
}

/// The text a bridge candidate would show, whose tokens are counted.
pub fn bridge_text_of(r: &NodeRange) -> (t: String)
    ensures
        t@ == bridge_text(*r),
{
    match &r.signature {
        Some(sig) => sig.clone(),
        None => r.name.clone(),
    }
}

pub struct BridgeRun {
    pub remaining: int,
    pub stopped: bool,
    pub bridges: Seq<BridgeView>,
}

/// The bridge phase over the first `n` candidate rows: it stops once less
/// than `min_budget` is left; otherwise a row is taken when its token count
/// fits.
pub open spec fn bridge_run(budget: int, rows: Seq<NodeRange>, toks: Seq<usize>, min_budget: int, n: int) -> BridgeRun
    decreases n,
{
    if n <= 0 {
        BridgeRun { remaining: budget, stopped: false, bridges: seq![] }
    } else {
        let s = bridge_run(budget, rows, toks, min_budget, n - 1);
        let r = rows[n - 1];
        let t = toks[n - 1] as int;
        if s.stopped || s.remaining < min_budget {
            BridgeRun { stopped: true, ..s }
        } else if t <= s.remaining {
            BridgeRun {
                remaining: s.remaining - t,
                bridges: s.bridges.push(
                    BridgeView {
                        file_id: r.file_id,
                        path: r.file_path@,
                        signature: bridge_text(r),
                        tokens: t,
                        node_name: r.name@,
                    },
                ),
                ..s
            }
        } else {
            s
        }
    }
}

pub open spec fn bridge_tokens(bs: Seq<BridgeView>) -> int
    decreases bs.len(),
{
    if bs.len() == 0 {
        0
    } else {
        bridge_tokens(bs.drop_last()) + bs.last().tokens
    }
}

/// Offers the bridge candidates in order, as [`bridge_run`] says.
pub fn select_bridges(rows: &Vec<NodeRange>, tokens: &Vec<usize>, budget: usize, min_budget: usize) -> (r: (
    Vec<BridgeExcerpt>,
    usize,
))
    requires
        tokens@.len() == rows@.len(),
    ensures
        ({
            let run = bridge_run(budget as int, rows@, tokens@, min_budget as int, rows@.len() as int);
            bridge_views(r.0@) == run.bridges && r.1 == run.remaining
        }),
        bridge_tokens(bridge_views(r.0@)) + r.1 == budget,
        r.1 <= budget,
{
    let mut out: Vec<BridgeExcerpt> = Vec::new();
    let mut remaining = budget;
    let mut stopped = false;
    let mut i: usize = 0;
    while i < rows.len()
        invariant
            i <= rows@.len(),
            tokens@.len() == rows@.len(),
            ({
                let run = bridge_run(budget as int, rows@, tokens@, min_budget as int, i as int);
                &&& bridge_views(out@) == run.bridges
                &&& remaining == run.remaining
                &&& stopped == run.stopped
            }),
            bridge_tokens(bridge_views(out@)) + remaining == budget,
            remaining <= budget,
        decreases rows.len() - i,
    {
        let t = tokens[i];
        if stopped || remaining < min_budget {
            stopped = true;
        } else if t <= remaining {
            let r = &rows[i];
            let ghost o = bridge_views(out@);
            let b = BridgeExcerpt {
                file_id: r.file_id,
                path: r.file_path.clone(),
                signature: bridge_text_of(r),
                tokens: t,
                node_name: r.name.clone(),
            };
            out.push(b);
            assert(bridge_views(out@) =~= o.push(bridge_view(b)));
            assert(bridge_views(out@).drop_last() =~= o);
            remaining = remaining - t;
        }
        i += 1;
    }
    (out, remaining)
}

// ---------------------------------------------------------------------------
// Choosing skeletons
// ---------------------------------------------------------------------------

/// A file offered as a skeleton: its id, the score of its match and the
/// path reported when it is left out.
#[derive(Debug)]
pub struct SkeletonCandidate {
    pub file_id: i64,
    pub score: u64,
    pub path: String,
}

/// What the index holds for a skeleton candidate: the path of its cached
/// row and, for each detail level tried, the skeleton text (`None` when the
/// file could not be read).
#[derive(Debug)]
pub struct SkeletonSource {
    pub path: String,
    pub texts: Vec<Option<String>>,
}

pub struct SkeletonView {
    pub file_id: i64,
    pub path: Seq<char>,
    pub skeleton: Seq<char>,
    pub tokens: int,
    pub level: DetailLevel,
}

pub struct UnallocatedView {
    pub path: Seq<char>,
    pub score: u64,
}

pub open spec fn skeleton_view(s: SkeletonFile) -> SkeletonView {
    SkeletonView { file_id: s.file_id, path: s.path@, skeleton: s.skeleton@, tokens: s.tokens as int, level: s.level }
}

pub open spec fn skeleton_views(v: Seq<SkeletonFile>) -> Seq<SkeletonView> {
    v.map_values(|s: SkeletonFile| skeleton_view(s))
}

pub open spec fn unallocated_view(u: UnallocatedMatch) -> UnallocatedView {
    UnallocatedView { path: u.path@, score: u.score }
}

pub open spec fn unallocated_views(v: Seq<UnallocatedMatch>) -> Seq<UnallocatedView> {
    v.map_values(|u: UnallocatedMatch| unallocated_view(u))
}

/// Whether a path's extension (none counting as empty) names an indexed
/// language.
pub open spec fn known_language(path: Seq<char>) -> bool {
    language_of_extension(
        match extension_opt(path) {
            Some(e) => e,
            None => seq![],
        },
    ) is Some
}

/// The first of the first `k` levels whose text exists and whose token count
/// fits `remaining`.
pub open spec fn first_fit(texts: Seq<Option<String>>, toks: Seq<usize>, remaining: int, k: int) -> Option<int>
    decreases k,
{
    if k <= 0 {
        None
    } else {
        match first_fit(texts, toks, remaining, k - 1) {
            Some(j) => Some(j),
            None => if texts[k - 1] is Some && toks[k - 1] <= remaining {
                Some(k - 1)
            } else {
                None
            },
        }
    }
}

pub struct SkeletonRun {
    pub remaining: int,
    pub skeletons: Seq<SkeletonView>,
    pub unallocated: Seq<UnallocatedView>,
}

/// One skeleton candidate: it is left out (and reported) when less than
/// `min_budget` is left, when `max_files` skeletons are already chosen, when
/// the index has no row for it, when its language is unknown, or when no
/// level's text fits; otherwise the most detailed level that fits is taken.
pub open spec fn skeleton_step(
    st: SkeletonRun,
    c: SkeletonCandidate,
    src: Option<SkeletonSource>,
    toks: Seq<usize>,
    levels: Seq<DetailLevel>,
    max_files: int,
    min_budget: int,
) -> SkeletonRun {
    let left_out = SkeletonRun {
        unallocated: st.unallocated.push(UnallocatedView { path: c.path@, score: c.score }),
        ..st
    };
    if st.remaining < min_budget || st.skeletons.len() >= max_files {
        left_out
    } else {
        match src {
            None => left_out,
            Some(s) => if !known_language(s.path@) {
                left_out
            } else {
                match first_fit(s.texts@, toks, st.remaining, s.texts@.len() as int) {
                    None => left_out,
                    Some(j) => SkeletonRun {
                        remaining: st.remaining - toks[j],
                        skeletons: st.skeletons.push(
                            SkeletonView {
                                file_id: c.file_id,
                                path: s.path@,
                                skeleton: s.texts@[j]->0@,
                                tokens: toks[j] as int,
                                level: levels[j],
                            },
                        ),
                        ..st
                    },
                }
            },
        }
    }
}

/// The skeleton phase over the first `n` candidates.
pub open spec fn skeleton_run(
    budget: int,
    cands: Seq<SkeletonCandidate>,
    srcs: Seq<Option<SkeletonSource>>,
    toks: Seq<Seq<usize>>,
    levels: Seq<DetailLevel>,
    max_files: int,
    min_budget: int,
    n: int,
) -> SkeletonRun
    decreases n,
{
    if n <= 0 {
        SkeletonRun { remaining: budget, skeletons: seq![], unallocated: seq![] }
    } else {
        skeleton_step(
            skeleton_run(budget, cands, srcs, toks, levels, max_files, min_budget, n - 1),
            cands[n - 1],
            srcs[n - 1],
            toks[n - 1],
            levels,
            max_files,
            min_budget,
        )
    }
}

pub open spec fn skeleton_tokens(v: Seq<SkeletonView>) -> int
    decreases v.len(),
{
    if v.len() == 0 {
        0
    } else {
        skeleton_tokens(v.drop_last()) + v.last().tokens
    }
}

/// Sources and counts line up with the candidates and the levels.
pub open spec fn sources_fit(
    cands: Seq<SkeletonCandidate>,
    srcs: Seq<Option<SkeletonSource>>,
    toks: Seq<Vec<usize>>,
    levels: Seq<DetailLevel>,
) -> bool {
    &&& srcs.len() == cands.len()
    &&& toks.len() == cands.len()
    &&& forall|i: int|
        0 <= i < srcs.len() ==> (#[trigger] srcs[i] matches Some(s) ==> s.texts@.len() == levels.len()
            && toks[i]@.len() == levels.len())
}

proof fn lemma_first_fit(texts: Seq<Option<String>>, toks: Seq<usize>, remaining: int, k: int)
    ensures
        first_fit(texts, toks, remaining, k) matches Some(j) ==> 0 <= j < k && texts[j] is Some && toks[j]
            <= remaining,
    decreases k,
{
    if k > 0 {
        lemma_first_fit(texts, toks, remaining, k - 1);
    }
}

fn pick_level(s: &SkeletonSource, toks: &Vec<usize>, remaining: usize) -> (r: Option<usize>)
    requires
        toks@.len() == s.texts@.len(),
    ensures
        match r {
            Some(x) => first_fit(s.texts@, toks@, remaining as int, s.texts@.len() as int) == Some(x as int),
            None => first_fit(s.texts@, toks@, remaining as int, s.texts@.len() as int) is None,
        },
{
    let mut chosen: Option<usize> = None;
    let mut j: usize = 0;
    while j < s.texts.len()
        invariant
            j <= s.texts@.len(),
            toks@.len() == s.texts@.len(),
            match chosen {
                Some(x) => first_fit(s.texts@, toks@, remaining as int, j as int) == Some(x as int) && x < j,
                None => first_fit(s.texts@, toks@, remaining as int, j as int) is None,
            },
        decreases s.texts.len() - j,
    {
        if chosen.is_none() && s.texts[j].is_some() && toks[j] <= remaining {
            chosen = Some(j);
        }
        j += 1;
    }
    chosen
}

fn language_known(path: &str) -> (r: bool)
    ensures
        r == known_language(path@),
{
    let lang = match path_extension(path) {
        Some(e) => Language::from_extension(e.as_str()),
        None => {
            let empty = String::new();
            Language::from_extension(empty.as_str())
        },
    };
    lang.is_some()
}

/// Offers the candidates in order, as [`skeleton_run`] says.
pub fn select_skeletons(
    cands: &Vec<SkeletonCandidate>,
    srcs: &Vec<Option<SkeletonSource>>,
    tokens: &Vec<Vec<usize>>,
    levels: &Vec<DetailLevel>,
    budget: usize,
    max_files: usize,
    min_budget: usize,
) -> (r: (Vec<SkeletonFile>, Vec<UnallocatedMatch>, usize))
    requires
        sources_fit(cands@, srcs@, tokens@, levels@),
    ensures
        ({
            let run = skeleton_run(
                budget as int,
                cands@,
                srcs@,
                count_views(tokens@),
                levels@,
                max_files as int,
                min_budget as int,
                cands@.len() as int,
            );
            &&& skeleton_views(r.0@) == run.skeletons
            &&& unallocated_views(r.1@) == run.unallocated
            &&& r.2 == run.remaining
        }),
        skeleton_tokens(skeleton_views(r.0@)) + r.2 == budget,
        r.2 <= budget,
        r.0@.len() <= max_files,
{
    let ghost tv = count_views(tokens@);
    let mut skels: Vec<SkeletonFile> = Vec::new();
    let mut unalloc: Vec<UnallocatedMatch> = Vec::new();
    let mut remaining = budget;
    let mut i: usize = 0;
    while i < cands.len()
        invariant
            i <= cands@.len(),
            sources_fit(cands@, srcs@, tokens@, levels@),
            tv == count_views(tokens@),
            ({
                let run = skeleton_run(
                    budget as int,
                    cands@,
                    srcs@,
                    tv,
                    levels@,
                    max_files as int,
                    min_budget as int,
                    i as int,
                );
                &&& skeleton_views(skels@) == run.skeletons
                &&& unallocated_views(unalloc@) == run.unallocated
                &&& remaining == run.remaining
            }),
            skeleton_tokens(skeleton_views(skels@)) + remaining == budget,
            remaining <= budget,
            skels@.len() <= max_files,
        decreases cands.len() - i,
    {
        let c = &cands[i];
        let ghost ou = unallocated_views(unalloc@);
        let ghost os = skeleton_views(skels@);
        assert(tv[i as int] == tokens@[i as int]@);
        let mut chosen: Option<usize> = None;
        if !(remaining < min_budget || skels.len() >= max_files) {
            match &srcs[i] {
                None => {},
                Some(s) => {
                    if language_known(s.path.as_str()) {
                        chosen = pick_level(s, &tokens[i], remaining);
                        proof {
                            if chosen is Some {
                                lemma_first_fit(s.texts@, tokens@[i as int]@, remaining as int, s.texts@.len() as int);
                            }
                        }
                    }
                },
            }
        }
        match chosen {
            Some(j) => {
                let s = srcs[i].as_ref().unwrap();
                let t = tokens[i][j];
                let text = s.texts[j].as_ref().unwrap().clone();
                let sk = SkeletonFile { file_id: c.file_id, path: s.path.clone(), skeleton: text, tokens: t, level: levels[j] };
                skels.push(sk);
                assert(skeleton_views(skels@) =~= os.push(skeleton_view(sk)));
                assert(skeleton_views(skels@).drop_last() =~= os);
                remaining = remaining - t;
            },
            None => {
                let u = UnallocatedMatch { path: c.path.clone(), score: c.score };
                unalloc.push(u);
                assert(unallocated_views(unalloc@) =~= ou.push(unallocated_view(u)));
            },
        }
        i += 1;
    }
    (skels, unalloc, remaining)
}

// ---------------------------------------------------------------------------
// The whole allocation
// ---------------------------------------------------------------------------

/// What [`allocate`] works from, gathered by its caller in turn: the search
/// hits and the ranges of their symbols come first; the texts of the pivot
/// files ([`pivot_files`]) and the token counts of their candidate excerpts
/// ([`plan_pivots`]) next; then the rows of the bridge candidates found from
/// the symbols the chosen pivots cover ([`select_pivots`]) with their token
/// counts ([`bridge_text_of`]); last the index rows of the skeleton
/// candidates ([`skeleton_candidates`], the first `2 * max_skeleton_files`
/// of them) with the token counts of their texts.
#[derive(Debug)]
pub struct AllocationInputs {
    pub hits: Vec<SearchHit>,
    pub ranges: Vec<NodeRange>,
    /// Symbols per file, as (file id, count).
    pub node_counts: Vec<(i64, u64)>,
    /// The text of each pivot file, `None` when it could not be read.
    pub contents: Vec<Option<String>>,
    pub pivot_tokens: Vec<Vec<usize>>,
    pub bridge_rows: Vec<NodeRange>,
    pub bridge_tokens: Vec<usize>,
    pub skeleton_sources: Vec<Option<SkeletonSource>>,
    pub skeleton_tokens: Vec<Vec<usize>>,
}

/// The pivot share, the bridge share and the skeleton share (what is left)
/// of the usable budget.
pub open spec fn shares(config: BudgetConfig, budget: usize) -> (int, int, int) {
    let u = usable_budget(budget as nat, config.overhead_reserve_pct as nat) as int;
    let p = u * config.pivot_budget_pct / 100;
    let b = u * config.bridge_budget_pct / 100;
    (p, b, u - p - b)
}

/// The files the pivot phase may visit: the first `max_pivot_files` in
/// [`file_order`].
pub open spec fn pivot_file_ids(hits: Seq<SearchHit>, ranges: Seq<NodeRange>, config: BudgetConfig) -> Seq<i64> {
    let order = file_order(hits, ranges);
    if order.len() <= config.max_pivot_files {
        order
    } else {
        order.take(config.max_pivot_files as int)
    }
}

pub open spec fn text_opt(o: Option<String>) -> Option<Seq<char>> {
    match o {
        Some(t) => Some(t@),
        None => None,
    }
}

/// The plans of the pivot files, given their texts.
pub open spec fn pivot_plans(
    hits: Seq<SearchHit>,
    ranges: Seq<NodeRange>,
    counts: Seq<(i64, u64)>,
    contents: Seq<Option<String>>,
    intent: Intent,
    config: BudgetConfig,
) -> Seq<PivotFileView> {
    let files = pivot_file_ids(hits, ranges, config);
    Seq::new(
        files.len(),
        |i: int| pivot_file_plan(hits, ranges, counts, files[i], text_opt(contents[i]), intent, config.context_padding),
    )
}

/// The (cluster, file path) of the best hit of each pivot's file, for the
/// pivots whose best hit has a cluster.
pub open spec fn pivot_clusters(hits: Seq<SearchHit>, pivots: Seq<PivotView>) -> Seq<(String, String)>
    decreases pivots.len(),
{
    if pivots.len() == 0 {
        seq![]
    } else {
        let prev = pivot_clusters(hits, pivots.drop_last());
        match best_hit(hits, pivots.last().file_id) {
            Some(j) => match hits[j].cluster_id {
                Some(c) => prev.push((c, hits[j].file_path)),
                None => prev,
            },
            None => prev,
        }
    }
}

pub open spec fn ranked(h: SearchHit) -> RankedMatch {
    RankedMatch { file_id: h.file_id, file_path: h.file_path, name: h.name, cluster_id: h.cluster_id }
}

pub open spec fn ranked_matches(hits: Seq<SearchHit>) -> Seq<RankedMatch> {
    hits.map_values(|h: SearchHit| ranked(h))
}

/// The score of the first hit (the best, as search results come), 1.00
/// without hits.
pub open spec fn top_score(hits: Seq<SearchHit>) -> u64 {
    if hits.len() > 0 {
        hits[0].score
    } else {
        100
    }
}

/// How many of `files` score above 70% of `top`.
pub open spec fn count_above(hits: Seq<SearchHit>, files: Seq<i64>, top: u64) -> nat
    decreases files.len(),
{
    if files.len() == 0 {
        0
    } else {
        count_above(hits, files.drop_last(), top) + if file_score(hits, files.last()) * 10 > top * 7 {
            1nat
        } else {
            0nat
        }
    }
}

/// The matching files that score above 70% of the top score.
pub open spec fn significant_files(hits: Seq<SearchHit>) -> nat {
    count_above(hits, dedup(hits.map_values(|h: SearchHit| h.file_id)), top_score(hits))
}

/// The detail levels tried for skeletons.
pub open spec fn skeleton_levels(hits: Seq<SearchHit>) -> Seq<DetailLevel> {
    fallback_levels(preferred_level(significant_files(hits)))
}

/// A skeleton candidate from the hit at `idx`: the file, the hit's score and
/// the path of the file's best hit.
pub open spec fn candidate_at(hits: Seq<SearchHit>, idx: int) -> SkeletonCandidate {
    let f = hits[idx].file_id;
    SkeletonCandidate {
        file_id: f,
        score: hits[idx].score,
        path: hits[best_hit(hits, f)->0].file_path,
    }
}

/// The index row used for skeleton candidate `i`: only the first
/// `2 * max_skeleton_files` are looked up.
pub open spec fn source_at(srcs: Seq<Option<SkeletonSource>>, config: BudgetConfig, i: int) -> Option<SkeletonSource> {
    if i < 2 * config.max_skeleton_files && i < srcs.len() {
        srcs[i]
    } else {
        None
    }
}

pub open spec fn tokens_at(toks: Seq<Vec<usize>>, i: int) -> Seq<usize> {
    if i < toks.len() {
        toks[i]@
    } else {
        seq![]
    }
}

pub struct AllocationView {
    pub pivots: Seq<PivotView>,
    pub bridges: Seq<BridgeView>,
    pub skeletons: Seq<SkeletonView>,
    pub rollups: Seq<RollupView>,
    pub unallocated: Seq<UnallocatedView>,
    pub total_tokens: int,
}

pub open spec fn allocation_view(a: BudgetAllocation) -> AllocationView {
    AllocationView {
        pivots: pivot_views(a.pivots@),
        bridges: bridge_views(a.bridges@),
        skeletons: skeleton_views(a.skeletons@),
        rollups: a.rollups@.map_values(|x: ClusterRollup| rollup_view(x)),
        unallocated: unallocated_views(a.unallocated_matches@),
        total_tokens: a.total_tokens as int,
    }
}

/// The whole allocation: the usable budget is what `overhead_reserve_pct`
/// leaves; pivots get `pivot_budget_pct` percent of it, bridges
/// `bridge_budget_pct` percent and skeletons the rest, each phase as its run
/// says; the rollups are those of the grouping of the matches not placed as
/// pivots; the total is the sum of what each phase used.
pub open spec fn allocation_of(i: AllocationInputs, config: BudgetConfig, budget: usize, intent: Intent) -> AllocationView {
    let (p, b, sk) = shares(config, budget);
    let plans = pivot_plans(i.hits@, i.ranges@, i.node_counts@, i.contents@, intent, config);
    let prun = pivot_run(p, plans, count_views(i.pivot_tokens@), config.min_pivot_budget as int, plans.len() as int);
    let brun = bridge_run(
        b,
        i.bridge_rows@,
        i.bridge_tokens@,
        config.min_bridge_budget as int,
        i.bridge_rows@.len() as int,
    );
    let g = grouping_from(i.hits@, prun.seen, prun.pivots);
    let cands = g.skel.map_values(|idx: int| candidate_at(i.hits@, idx));
    let srun = skeleton_run(
        sk,
        cands,
        Seq::new(cands.len(), |k: int| source_at(i.skeleton_sources@, config, k)),
        Seq::new(cands.len(), |k: int| tokens_at(i.skeleton_tokens@, k)),
        skeleton_levels(i.hits@),
        config.max_skeleton_files as int,
        config.min_skeleton_budget as int,
        cands.len() as int,
    );
    AllocationView {
        pivots: prun.pivots,
        bridges: brun.bridges,
        skeletons: srun.skeletons,
        rollups: g.rollups,
        unallocated: srun.unallocated,
        total_tokens: (p - prun.remaining) + (b - brun.remaining) + (sk - srun.remaining),
    }
}

proof fn lemma_insert_by_contains<T>(t: Seq<T>, x: T, le: spec_fn(T, T) -> bool, y: T)
    ensures
        insert_by(t, x, le).contains(y) ==> t.contains(y) || y == x,
    decreases t.len(),
{
    if t.len() > 0 && !le(t.last(), x) {
        lemma_insert_by_contains(t.drop_last(), x, le, y);
        let u = insert_by(t.drop_last(), x, le);
        if u.push(t.last()).contains(y) {
            let k = choose|k: int| 0 <= k < u.push(t.last()).len() && u.push(t.last())[k] == y;
            if k < u.len() {
                assert(u[k] == y);
                if t.drop_last().contains(y) {
                    let m = choose|m: int| 0 <= m < t.drop_last().len() && t.drop_last()[m] == y;
                    assert(t[m] == y);
                }
            } else {
                assert(t[t.len() - 1] == y);
            }
        }
    } else if t.len() > 0 {
        if t.push(x).contains(y) {
            let k = choose|k: int| 0 <= k < t.push(x).len() && t.push(x)[k] == y;
            if k < t.len() {
                assert(t[k] == y);
            }
        }
    }
}

proof fn lemma_sort_by_contains<T>(s: Seq<T>, le: spec_fn(T, T) -> bool, y: T)
    ensures
        sort_by(s, le).contains(y) ==> s.contains(y),
    decreases s.len(),
{
    if s.len() > 0 {
        lemma_sort_by_contains(s.drop_last(), le, y);
        lemma_insert_by_contains(sort_by(s.drop_last(), le), s.last(), le, y);
        if sort_by(s, le).contains(y) {
            if s.drop_last().contains(y) {
                let m = choose|m: int| 0 <= m < s.drop_last().len() && s.drop_last()[m] == y;
                assert(s[m] == y);
            } else {
                assert(s[s.len() - 1] == y);
            }
        }
    }
}

proof fn lemma_file_has_ranges(ranges: Seq<NodeRange>, f: i64)
    requires
        ranges.map_values(|r: NodeRange| r.file_id).contains(f),
    ensures
        ranges_of_file(ranges, f).len() > 0,
    decreases ranges.len(),
{
    let ids = ranges.map_values(|r: NodeRange| r.file_id);
    if ranges.last().file_id != f {
        let k = choose|k: int| 0 <= k < ids.len() && ids[k] == f;
        assert(k < ranges.len() - 1);
        assert(ranges.drop_last().map_values(|r: NodeRange| r.file_id)[k] == f);
        lemma_file_has_ranges(ranges.drop_last(), f);
    }
}

proof fn lemma_ordered_file_has_ranges(hits: Seq<SearchHit>, ranges: Seq<NodeRange>, f: i64)
    requires
        file_order(hits, ranges).contains(f),
    ensures
        ranges_of_file(ranges, f).len() > 0,
{
    let ids = ranges.map_values(|r: NodeRange| r.file_id);
    lemma_sort_by_contains(dedup(ids), score_desc(hits), f);
    crate::text::lemma_dedup_contains(ids, f);
    lemma_file_has_ranges(ranges, f);
}

/// Every range ends far enough below `usize::MAX` to be padded.
pub open spec fn ends_fit(ranges: Seq<NodeRange>, padding: usize) -> bool {
    forall|i: int| 0 <= i < ranges.len() ==> (#[trigger] ranges[i].line_end as usize) + padding <= usize::MAX
}

proof fn lemma_ends_fit_in_file(ranges: Seq<NodeRange>, padding: usize, f: i64)
    requires
        ends_fit(ranges, padding),
    ensures
        ends_fit(ranges_of_file(ranges, f), padding),
    decreases ranges.len(),
{
    if ranges.len() > 0 {
        assert(ends_fit(ranges.drop_last(), padding)) by {
            assert forall|i: int| 0 <= i < ranges.drop_last().len() implies (#[trigger] ranges.drop_last()[i].line_end
                as usize) + padding <= usize::MAX by {
                assert(ranges.drop_last()[i] == ranges[i]);
            }
        }
        lemma_ends_fit_in_file(ranges.drop_last(), padding, f);
        let prev = ranges_of_file(ranges.drop_last(), f);
        if ranges.last().file_id == f {
            assert forall|i: int| 0 <= i < prev.push(ranges.last()).len() implies (#[trigger] prev.push(
                ranges.last(),
            )[i].line_end as usize) + padding <= usize::MAX by {
                if i == prev.len() {
                    assert(ranges[ranges.len() - 1] == ranges.last());
                }
            }
        }
    }
}

/// What the inputs must hold to be planned: ranges that can be padded, texts
/// whose line count fits `usize`, one text per pivot file.
pub open spec fn pivot_inputs_fit(
    hits: Seq<SearchHit>,
    ranges: Seq<NodeRange>,
    contents: Seq<Option<String>>,
    config: BudgetConfig,
) -> bool {
    &&& ends_fit(ranges, config.context_padding)
    &&& contents.len() == pivot_file_ids(hits, ranges, config).len()
    &&& forall|i: int| 0 <= i < contents.len() ==> (#[trigger] contents[i] matches Some(t) ==> text_lines(t@).len() < usize::MAX)
}

/// The pivot files are the best-scoring ones: no file of the matched ranges
/// left out scores above any pivot file, and no file is taken twice.
pub proof fn lemma_pivot_files_are_the_best(hits: Seq<SearchHit>, ranges: Seq<NodeRange>, config: BudgetConfig)
    ensures
        ({
            let pf = pivot_file_ids(hits, ranges, config);
            &&& pf.no_duplicates()
            &&& forall|i: int, k: int|
                0 <= i < pf.len() && 0 <= k < ranges.len() && !pf.contains(#[trigger] ranges[k].file_id) ==> file_score(
                    hits,
                    #[trigger] pf[i],
                ) >= file_score(hits, ranges[k].file_id)
        }),
{
    lemma_file_order_ranked(hits, ranges);
    let fo = file_order(hits, ranges);
    let pf = pivot_file_ids(hits, ranges, config);
    let n = pf.len();
    assert(forall|i: int| 0 <= i < n ==> pf[i] == fo[i]);
    assert forall|i: int, k: int|
        0 <= i < pf.len() && 0 <= k < ranges.len() && !pf.contains(#[trigger] ranges[k].file_id) implies file_score(
        hits,
        #[trigger] pf[i],
    ) >= file_score(hits, ranges[k].file_id) by {
        let f = ranges[k].file_id;
        assert(fo.contains(f));
        let p = choose|p: int| 0 <= p < fo.len() && fo[p] == f;
        if p < n {
            assert(pf[p] == f);
        }
        assert(fo[i] == pf[i]);
    }
}

/// The files the pivot phase may visit, with the path of each (that of its
/// first matched range), for reading.
pub fn pivot_files(hits: &Vec<SearchHit>, ranges: &Vec<NodeRange>, config: &BudgetConfig) -> (r: Vec<(i64, String)>)
    ensures
        r@.len() == pivot_file_ids(hits@, ranges@, *config).len(),
        forall|i: int|
            0 <= i < r@.len() ==> (#[trigger] r@[i]).0 == pivot_file_ids(hits@, ranges@, *config)[i] && r@[i].1@
                == ranges_of_file(ranges@, r@[i].0)[0].file_path@,
        r@.len() == if file_order(hits@, ranges@).len() <= config.max_pivot_files {
            file_order(hits@, ranges@).len()
        } else {
            config.max_pivot_files as nat
        },
        forall|i: int, j: int| 0 <= i < j < r@.len() ==> #[trigger] r@[i].0 != #[trigger] r@[j].0,
        forall|i: int, k: int|
            0 <= i < r@.len() && 0 <= k < ranges@.len() && (forall|j: int| 0 <= j < r@.len() ==> r@[j].0
                != #[trigger] ranges@[k].file_id) ==> file_score(hits@, #[trigger] r@[i].0) >= file_score(
                hits@,
                ranges@[k].file_id,
            ),
{
    proof {
        lemma_pivot_files_are_the_best(hits@, ranges@, *config);
    }
    let order = order_files(hits, ranges);
    let n = if order.len() <= config.max_pivot_files {
        order.len()
    } else {
        config.max_pivot_files
    };
    let ghost files = pivot_file_ids(hits@, ranges@, *config);
    assert(files =~= order@.take(n as int));
    let mut out: Vec<(i64, String)> = Vec::new();
    let mut i: usize = 0;
    while i < n
        invariant
            i <= n <= order@.len(),
            order@ == file_order(hits@, ranges@),
            files == order@.take(n as int),
            out@.len() == i,
            forall|k: int|
                0 <= k < i ==> (#[trigger] out@[k]).0 == files[k] && out@[k].1@ == ranges_of_file(ranges@, out@[k].0)[0].file_path@,
        decreases n - i,
    {
        let f = order[i];
        proof {
            assert(order@[i as int] == f);
            lemma_ordered_file_has_ranges(hits@, ranges@, f);
        }
        let rs = ranges_in_file(ranges, f);
        out.push((f, rs[0].file_path.clone()));
        i += 1;
    }
    proof {
        let pf = pivot_file_ids(hits@, ranges@, *config);
        assert forall|i: int, k: int|
            0 <= i < out@.len() && 0 <= k < ranges@.len() && (forall|j: int| 0 <= j < out@.len() ==> out@[j].0
                != #[trigger] ranges@[k].file_id) implies file_score(hits@, #[trigger] out@[i].0) >= file_score(
            hits@,
            ranges@[k].file_id,
        ) by {
            let f = ranges@[k].file_id;
            if pf.contains(f) {
                let p = choose|p: int| 0 <= p < pf.len() && pf[p] == f;
                assert(out@[p].0 == f);
            }
            assert(out@[i].0 == pf[i]);
        }
    }
    out
}

/// The plans of the pivot files, as [`pivot_plans`] says; the caller counts
/// the tokens of every candidate excerpt.
pub fn plan_pivots(
    hits: &Vec<SearchHit>,
    ranges: &Vec<NodeRange>,
    counts: &Vec<(i64, u64)>,
    contents: &Vec<Option<String>>,
    intent: Intent,
    config: &BudgetConfig,
) -> (r: Vec<PivotFile>)
    requires
        pivot_inputs_fit(hits@, ranges@, contents@, *config),
    ensures
        pivot_file_views(r@) == pivot_plans(hits@, ranges@, counts@, contents@, intent, *config),
{
    let order = order_files(hits, ranges);
    let n = if order.len() <= config.max_pivot_files {
        order.len()
    } else {
        config.max_pivot_files
    };
    let ghost files = pivot_file_ids(hits@, ranges@, *config);
    let ghost want = pivot_plans(hits@, ranges@, counts@, contents@, intent, *config);
    assert(files =~= order@.take(n as int));
    let mut out: Vec<PivotFile> = Vec::new();
    let mut i: usize = 0;
    while i < n
        invariant
            i <= n <= order@.len(),
            order@ == file_order(hits@, ranges@),
            files == order@.take(n as int),
            files == pivot_file_ids(hits@, ranges@, *config),
            want == pivot_plans(hits@, ranges@, counts@, contents@, intent, *config),
            pivot_inputs_fit(hits@, ranges@, contents@, *config),
            pivot_file_views(out@) == want.take(i as int),
        decreases n - i,
    {
        let f = order[i];
        proof {
            assert(order@[i as int] == f);
            lemma_ordered_file_has_ranges(hits@, ranges@, f);
            lemma_ends_fit_in_file(ranges@, config.context_padding, f);
            assert(files[i as int] == f);
        }
        let plan = plan_pivot_file(hits, ranges, counts, f, &contents[i], intent, config.context_padding);
        let ghost o = pivot_file_views(out@);
        out.push(plan);
        assert(pivot_file_views(out@) =~= o.push(pivot_file_view(plan)));
        assert(want.take(i as int + 1) =~= want.take(i as int).push(want[i as int]));
        i += 1;
    }
    assert(want.take(n as int) =~= want);
    out
}

proof fn lemma_grouping_skel_bounds(start: GroupingView, matches: Seq<RankedMatch>)
    requires
        start.skel.len() == 0,
    ensures
        forall|k: int|
            0 <= k < grouping(start, matches).skel.len() ==> 0 <= #[trigger] grouping(start, matches).skel[k]
                < matches.len(),
    decreases matches.len(),
{
    if matches.len() > 0 {
        lemma_grouping_skel_bounds(start, matches.drop_last());
        let prev = grouping(start, matches.drop_last());
        let cur = grouping(start, matches);
        assert(cur == grouping_step(prev, matches.len() - 1, matches.last()));
        assert(cur.skel == prev.skel || cur.skel == prev.skel.push(matches.len() - 1));
        assert forall|k: int| 0 <= k < cur.skel.len() implies 0 <= #[trigger] cur.skel[k] < matches.len() by {
            if k < prev.skel.len() {
                assert(cur.skel[k] == prev.skel[k]);
            }
        }
    }
}

proof fn lemma_best_hit_exists(hits: Seq<SearchHit>, idx: int)
    requires
        0 <= idx < hits.len(),
    ensures
        best_hit(hits, hits[idx].file_id) is Some,
    decreases hits.len(),
{
    if idx < hits.len() - 1 {
        lemma_best_hit_exists(hits.drop_last(), idx);
        assert(hits.drop_last()[idx] == hits[idx]);
    }
}

/// The grouping after a pivot phase that went through files `seen` and
/// chose `pivots`.
pub open spec fn grouping_from(hits: Seq<SearchHit>, seen: Seq<i64>, pivots: Seq<PivotView>) -> GroupingView {
    grouping(start_grouping(seen, pivot_clusters(hits, pivots)), ranked_matches(hits))
}

fn ranked_of(h: &SearchHit) -> (r: RankedMatch)
    ensures
        r == ranked(*h),
{
    RankedMatch {
        file_id: h.file_id,
        file_path: h.file_path.clone(),
        name: h.name.clone(),
        cluster_id: copy_opt_string(&h.cluster_id),
    }
}

/// The skeleton candidates and the cluster rollups left by a pivot phase.
pub fn skeleton_candidates(hits: &Vec<SearchHit>, sel: &PivotSelection) -> (r: (Vec<SkeletonCandidate>, Vec<ClusterRollup>))
    ensures
        ({
            let g = grouping_from(hits@, sel.seen_files@, pivot_views(sel.pivots@));
            &&& r.0@ == g.skel.map_values(|idx: int| candidate_at(hits@, idx))
            &&& r.1@.map_values(|x: ClusterRollup| rollup_view(x)) == g.rollups
        }),
{
    let ghost pv = pivot_views(sel.pivots@);
    let mut clusters: Vec<(String, String)> = Vec::new();
    let mut i: usize = 0;
    while i < sel.pivots.len()
        invariant
            i <= sel.pivots@.len(),
            pv == pivot_views(sel.pivots@),
            clusters@ == pivot_clusters(hits@, pv.take(i as int)),
        decreases sel.pivots.len() - i,
    {
        assert(pv.take(i as int + 1).drop_last() =~= pv.take(i as int));
        assert(pv.take(i as int + 1).last() == pivot_view(sel.pivots@[i as int]));
        match best_hit_of(hits, sel.pivots[i].file_id) {
            Some(j) => match &hits[j].cluster_id {
                Some(c) => {
                    clusters.push((c.clone(), hits[j].file_path.clone()));
                },
                None => {},
            },
            None => {},
        }
        i += 1;
    }
    assert(pv.take(pv.len() as int) =~= pv);
    let mut matches: Vec<RankedMatch> = Vec::new();
    let mut k: usize = 0;
    while k < hits.len()
        invariant
            k <= hits@.len(),
            matches@ == ranked_matches(hits@.take(k as int)),
        decreases hits.len() - k,
    {
        let m = ranked_of(&hits[k]);
        matches.push(m);
        assert(ranked_matches(hits@.take(k as int + 1)) =~= ranked_matches(hits@.take(k as int)).push(
            ranked(hits@[k as int]),
        ));
        k += 1;
    }
    assert(hits@.take(hits@.len() as int) =~= hits@);
    let plan = crate::capsule::budget::plan_rollups(matches.as_slice(), &sel.seen_files, &clusters);
    let ghost g = grouping_from(hits@, sel.seen_files@, pv);
    proof {
        lemma_grouping_skel_bounds(start_grouping(sel.seen_files@, pivot_clusters(hits@, pv)), ranked_matches(hits@));
    }
    assert(plan.skeleton_candidates@.map_values(|i: usize| i as int) == g.skel);
    let mut cands: Vec<SkeletonCandidate> = Vec::new();
    let mut t: usize = 0;
    while t < plan.skeleton_candidates.len()
        invariant
            t <= plan.skeleton_candidates@.len(),
            plan.skeleton_candidates@.map_values(|i: usize| i as int) == g.skel,
            forall|q: int| 0 <= q < g.skel.len() ==> 0 <= #[trigger] g.skel[q] < hits@.len(),
            cands@ == g.skel.take(t as int).map_values(|idx: int| candidate_at(hits@, idx)),
        decreases plan.skeleton_candidates.len() - t,
    {
        let idx = plan.skeleton_candidates[t];
        assert(g.skel[t as int] == idx as int);
        let f = hits[idx].file_id;
        proof {
            lemma_best_hit_exists(hits@, idx as int);
        }
        let b = best_hit_of(hits, f).unwrap();
        let c = SkeletonCandidate { file_id: f, score: hits[idx].score, path: hits[b].file_path.clone() };
        cands.push(c);
        assert(g.skel.take(t as int + 1) =~= g.skel.take(t as int).push(g.skel[t as int]));
        assert(cands@ =~= g.skel.take(t as int + 1).map_values(|idx: int| candidate_at(hits@, idx)));
        t += 1;
    }
    assert(g.skel.take(g.skel.len() as int) =~= g.skel);
    (cands, plan.rollups)
}

/// The number of matching files that score above 70% of the top score.
pub fn count_significant(hits: &Vec<SearchHit>) -> (r: usize)
    ensures
        r == significant_files(hits@),
{
    let ghost all = hits@.map_values(|h: SearchHit| h.file_id);
    let mut uniq: Vec<i64> = Vec::new();
    let mut i: usize = 0;
    while i < hits.len()
        invariant
            i <= hits@.len(),
            all == hits@.map_values(|h: SearchHit| h.file_id),
            uniq@ == dedup(all.take(i as int)),
            uniq@.len() <= i,
        decreases hits.len() - i,
    {
        assert(all.take(i as int + 1).drop_last() =~= all.take(i as int));
        let f = hits[i].file_id;
        if !contains_i64(&uniq, f) {
            uniq.push(f);
        }
        i += 1;
    }
    assert(all.take(hits@.len() as int) =~= all);
    let top: u64 = if hits.len() > 0 {
        hits[0].score
    } else {
        100
    };
    let mut n: usize = 0;
    let mut k: usize = 0;
    while k < uniq.len()
        invariant
            k <= uniq@.len(),
            n <= k,
            top == top_score(hits@),
            n == count_above(hits@, uniq@.take(k as int), top),
        decreases uniq.len() - k,
    {
        assert(uniq@.take(k as int + 1).drop_last() =~= uniq@.take(k as int));
        let sc = score_of(hits, uniq[k]);
        if (sc as u128) * 10 > (top as u128) * 7 {
            n += 1;
        }
        k += 1;
    }
    assert(uniq@.take(uniq@.len() as int) =~= uniq@);
    n
}

/// The detail levels tried for skeletons, as [`skeleton_levels`] says.
pub fn skeleton_levels_for(hits: &Vec<SearchHit>) -> (r: Vec<DetailLevel>)
    ensures
        r@ == skeleton_levels(hits@),
{
    let n = count_significant(hits);
    crate::capsule::budget::levels_to_try(crate::capsule::budget::detail_level_for(n))
}

proof fn lemma_skeleton_run_sources(
    budget: int,
    cands: Seq<SkeletonCandidate>,
    a: Seq<Option<SkeletonSource>>,
    b: Seq<Option<SkeletonSource>>,
    toks: Seq<Seq<usize>>,
    levels: Seq<DetailLevel>,
    max_files: int,
    min_budget: int,
    n: int,
)
    requires
        n <= a.len(),
        n <= b.len(),
        forall|q: int| 0 <= q < n ==> (#[trigger] a[q] is None) == (b[q] is None),
        forall|q: int|
            0 <= q < n ==> (#[trigger] a[q] matches Some(x) ==> b[q] matches Some(y) && x.path == y.path && x.texts@
                == y.texts@),
    ensures
        skeleton_run(budget, cands, a, toks, levels, max_files, min_budget, n) == skeleton_run(
            budget,
            cands,
            b,
            toks,
            levels,
            max_files,
            min_budget,
            n,
        ),
    decreases n,
{
    if n > 0 {
        lemma_skeleton_run_sources(budget, cands, a, b, toks, levels, max_files, min_budget, n - 1);
        assert(a[n - 1] is None == b[n - 1] is None);
    }
}

fn copy_counts(v: &Vec<usize>) -> (r: Vec<usize>)
    ensures
        r@ == v@,
{
    let mut out: Vec<usize> = Vec::new();
    let mut i: usize = 0;
    while i < v.len()
        invariant
            i <= v@.len(),
            out@ == v@.take(i as int),
        decreases v.len() - i,
    {
        out.push(v[i]);
        assert(v@.take(i as int + 1) =~= v@.take(i as int).push(v@[i as int]));
        i += 1;
    }
    assert(v@.take(v@.len() as int) =~= v@);
    out
}

fn copy_source(s: &SkeletonSource) -> (r: SkeletonSource)
    ensures
        r.path == s.path,
        r.texts@ == s.texts@,
{
    let mut texts: Vec<Option<String>> = Vec::new();
    let mut i: usize = 0;
    while i < s.texts.len()
        invariant
            i <= s.texts@.len(),
            texts@ == s.texts@.take(i as int),
        decreases s.texts.len() - i,
    {
        texts.push(copy_opt_string(&s.texts[i]));
        assert(s.texts@.take(i as int + 1) =~= s.texts@.take(i as int).push(s.texts@[i as int]));
        i += 1;
    }
    assert(s.texts@.take(s.texts@.len() as int) =~= s.texts@);
    SkeletonSource { path: s.path.clone(), texts }
}

/// The budget settings [`allocate`] works with: percentages within 100 and a
/// budget whose hundredfold fits `usize`.
pub open spec fn budget_ok(config: BudgetConfig, budget: usize) -> bool {
    &&& config.overhead_reserve_pct <= 100
    &&& config.pivot_budget_pct + config.bridge_budget_pct <= 100
    &&& budget * 100 <= usize::MAX
}

/// What the inputs must hold for [`allocate`]: plannable pivot files, a
/// count for every candidate excerpt and bridge row, and for every skeleton
/// row looked up one text and one count per level tried.
pub open spec fn inputs_fit(i: AllocationInputs, config: BudgetConfig) -> bool {
    &&& pivot_inputs_fit(i.hits@, i.ranges@, i.contents@, config)
    &&& i.pivot_tokens@.len() == pivot_file_ids(i.hits@, i.ranges@, config).len()
    &&& i.bridge_tokens@.len() == i.bridge_rows@.len()
    &&& forall|k: int|
        0 <= k < i.skeleton_sources@.len() ==> (#[trigger] i.skeleton_sources@[k] matches Some(s) ==> s.texts@.len()
            == skeleton_levels(i.hits@).len() && tokens_at(i.skeleton_tokens@, k).len() == skeleton_levels(
            i.hits@,
        ).len())
}

/// One count per candidate excerpt of each pivot file.
pub open spec fn pivot_counts_fit(plans: Seq<PivotFileView>, toks: Seq<Vec<usize>>) -> bool {
    &&& toks.len() == plans.len()
    &&& forall|k: int| 0 <= k < plans.len() ==> (#[trigger] toks[k])@.len() == plans[k].pieces.len()
}

/// Allocates the token budget as [`allocation_of`] says. Each phase stays
/// within its share, and the total within the usable budget.
pub fn allocate(inputs: &AllocationInputs, config: &BudgetConfig, budget: usize, intent: Intent) -> (r: BudgetAllocation)
    requires
        budget_ok(*config, budget),
        inputs_fit(*inputs, *config),
        pivot_counts_fit(
            pivot_plans(inputs.hits@, inputs.ranges@, inputs.node_counts@, inputs.contents@, intent, *config),
            inputs.pivot_tokens@,
        ),
    ensures
        allocation_view(r) == allocation_of(*inputs, *config, budget, intent),
        pivot_tokens(allocation_view(r).pivots) <= shares(*config, budget).0,
        bridge_tokens(allocation_view(r).bridges) <= shares(*config, budget).1,
        skeleton_tokens(allocation_view(r).skeletons) <= shares(*config, budget).2,
        r.total_tokens == pivot_tokens(allocation_view(r).pivots) + bridge_tokens(allocation_view(r).bridges)
            + skeleton_tokens(allocation_view(r).skeletons),
        r.total_tokens <= usable_budget(budget as nat, config.overhead_reserve_pct as nat),
        r.skeletons@.len() <= config.max_skeleton_files,
{
    let ghost u = usable_budget(budget as nat, config.overhead_reserve_pct as nat);
    proof {
        let o = config.overhead_reserve_pct as int;
        let pp = config.pivot_budget_pct as int;
        let bp = config.bridge_budget_pct as int;
        let b = budget as int;
        assert(b * (100 - o) <= b * 100) by (nonlinear_arith)
            requires
                0 <= o <= 100,
                b >= 0,
        ;
        assert(u <= b) by (nonlinear_arith)
            requires
                u == b * (100 - o) / 100,
                0 <= o <= 100,
                b >= 0,
        ;
        assert(u * pp <= b * 100 && u * bp <= b * 100) by (nonlinear_arith)
            requires
                0 <= u <= b,
                0 <= pp,
                0 <= bp,
                pp + bp <= 100,
        ;
        assert(u * pp / 100 + u * bp / 100 <= u) by (nonlinear_arith)
            requires
                u >= 0,
                0 <= pp,
                0 <= bp,
                pp + bp <= 100,
        ;
    }
    let split = crate::capsule::budget::split_budget(
        budget,
        config.overhead_reserve_pct,
        config.pivot_budget_pct,
        config.bridge_budget_pct,
    );
    let plans = plan_pivots(&inputs.hits, &inputs.ranges, &inputs.node_counts, &inputs.contents, intent, config);
    assert(counts_fit(plans@, inputs.pivot_tokens@)) by {
        assert forall|k: int| 0 <= k < plans@.len() implies (#[trigger] inputs.pivot_tokens@[k])@.len()
            == plans@[k].pieces@.len() by {
            assert(pivot_file_views(plans@)[k] == pivot_file_view(plans@[k]));
        }
    }
    let sel = select_pivots(&plans, &inputs.pivot_tokens, split.pivot, config.min_pivot_budget);
    let (bridges, bridge_left) = select_bridges(
        &inputs.bridge_rows,
        &inputs.bridge_tokens,
        split.bridge,
        config.min_bridge_budget,
    );
    let (cands, rollups) = skeleton_candidates(&inputs.hits, &sel);
    let levels = skeleton_levels_for(&inputs.hits);
    let ghost g = grouping_from(inputs.hits@, sel.seen_files@, pivot_views(sel.pivots@));
    let ghost want_srcs = Seq::new(cands@.len(), |k: int| source_at(inputs.skeleton_sources@, *config, k));
    let ghost want_toks = Seq::new(cands@.len(), |k: int| tokens_at(inputs.skeleton_tokens@, k));
    let mut srcs: Vec<Option<SkeletonSource>> = Vec::new();
    let mut toks: Vec<Vec<usize>> = Vec::new();
    let mut k: usize = 0;
    while k < cands.len()
        invariant
            k <= cands@.len(),
            srcs@.len() == k,
            toks@.len() == k,
            inputs_fit(*inputs, *config),
            levels@ == skeleton_levels(inputs.hits@),
            forall|q: int|
                0 <= q < k ==> (#[trigger] srcs@[q] matches Some(s) ==> source_at(inputs.skeleton_sources@, *config, q)
                    matches Some(w) && s.path == w.path && s.texts@ == w.texts@),
            forall|q: int| 0 <= q < k ==> (#[trigger] srcs@[q] is None) == (source_at(inputs.skeleton_sources@, *config, q) is None),
            forall|q: int| 0 <= q < k ==> (#[trigger] toks@[q])@ == tokens_at(inputs.skeleton_tokens@, q),
        decreases cands.len() - k,
    {
        if k / 2 < config.max_skeleton_files && k < inputs.skeleton_sources.len() {
            match &inputs.skeleton_sources[k] {
                Some(src) => srcs.push(Some(copy_source(src))),
                None => srcs.push(None),
            }
        } else {
            srcs.push(None);
        }
        if k < inputs.skeleton_tokens.len() {
            toks.push(copy_counts(&inputs.skeleton_tokens[k]));
        } else {
            toks.push(Vec::new());
        }
        proof {
            assert(toks@[k as int]@ == tokens_at(inputs.skeleton_tokens@, k as int));
        }
        k += 1;
    }
    assert(sources_fit(cands@, srcs@, toks@, levels@)) by {
        assert forall|q: int| 0 <= q < srcs@.len() implies (#[trigger] srcs@[q] matches Some(s) ==> s.texts@.len()
            == levels@.len() && toks@[q]@.len() == levels@.len()) by {
            if srcs@[q] is Some {
                assert(q < inputs.skeleton_sources@.len());
                assert(inputs.skeleton_sources@[q] is Some);
            }
        }
    }
    let (skeletons, unallocated, skel_left) = select_skeletons(
        &cands,
        &srcs,
        &toks,
        &levels,
        split.skeleton,
        config.max_skeleton_files,
        config.min_skeleton_budget,
    );
    proof {
        let sr1 = skeleton_run(
            split.skeleton as int,
            cands@,
            srcs@,
            count_views(toks@),
            levels@,
            config.max_skeleton_files as int,
            config.min_skeleton_budget as int,
            cands@.len() as int,
        );
        assert(count_views(toks@) =~= want_toks);
        lemma_skeleton_run_sources(
            split.skeleton as int,
            cands@,
            srcs@,
            want_srcs,
            want_toks,
            levels@,
            config.max_skeleton_files as int,
            config.min_skeleton_budget as int,
            cands@.len() as int,
        );
    }
    let total = (split.pivot - sel.remaining) + (split.bridge - bridge_left) + (split.skeleton - skel_left);
    BudgetAllocation {
        pivots: sel.pivots,
        bridges,
        skeletons,
        rollups,
        unallocated_matches: unallocated,
        total_tokens: total,
    }
}


proof fn lemma_insert_by_ranked(s: Seq<i64>, x: i64, hits: Seq<SearchHit>)
    requires
        vstd::relations::sorted_by(s, score_desc(hits)),
    ensures
        vstd::relations::sorted_by(insert_by(s, x, score_desc(hits)), score_desc(hits)),
        insert_by(s, x, score_desc(hits)).to_multiset() == s.to_multiset().insert(x),
    decreases s.len(),
{
    broadcast use vstd::seq_lib::group_to_multiset_ensures;
    broadcast use vstd::multiset::group_multiset_axioms;

    let le = score_desc(hits);
    if s.len() == 0 {
        assert(seq![x] =~= s.push(x));
    } else if le(s.last(), x) {
        assert forall|i: int, j: int| 0 <= i < j < s.len() + 1 implies #[trigger] le(s.push(x)[i], s.push(x)[j]) by {
            if j == s.len() && i < s.len() - 1 {
                assert(le(s[i], s[s.len() - 1]));
            }
        }
    } else {
        let p = s.drop_last();
        let r = insert_by(p, x, le);
        assert(vstd::relations::sorted_by(p, le)) by {
            assert forall|i: int, j: int| 0 <= i < j < p.len() implies #[trigger] le(p[i], p[j]) by {
                assert(le(s[i], s[j]));
            }
        }
        lemma_insert_by_ranked(p, x, hits);
        assert(s =~= p.push(s.last()));
        assert(le(x, s.last()));
        assert forall|i: int| 0 <= i < r.len() implies #[trigger] le(r[i], s.last()) by {
            assert(r.to_multiset().count(r[i]) > 0);
            if r[i] != x {
                assert(p.to_multiset().count(r[i]) > 0);
                let k = choose|k: int| 0 <= k < p.len() && p[k] == r[i];
                assert(le(s[k], s[s.len() - 1]));
            }
        }
        assert forall|i: int, j: int| 0 <= i < j < r.len() + 1 implies #[trigger] le(
            r.push(s.last())[i],
            r.push(s.last())[j],
        ) by {
            if j == r.len() {
                assert(le(r[i], s.last()));
            } else {
                assert(le(r[i], r[j]));
            }
        }
        assert(r.push(s.last()).to_multiset() =~= s.to_multiset().insert(x));
    }
}

proof fn lemma_sort_ranked(s: Seq<i64>, hits: Seq<SearchHit>)
    ensures
        vstd::relations::sorted_by(sort_by(s, score_desc(hits)), score_desc(hits)),
        sort_by(s, score_desc(hits)).to_multiset() == s.to_multiset(),
    decreases s.len(),
{
    broadcast use vstd::seq_lib::group_to_multiset_ensures;

    if s.len() > 0 {
        lemma_sort_ranked(s.drop_last(), hits);
        lemma_insert_by_ranked(sort_by(s.drop_last(), score_desc(hits)), s.last(), hits);
        assert(s =~= s.drop_last().push(s.last()));
    }
}

/// The pivot candidates are ranked: the files of the matched ranges, each
/// exactly once, in non-increasing order of file score.
pub proof fn lemma_file_order_ranked(hits: Seq<SearchHit>, ranges: Seq<NodeRange>)
    ensures
        ({
            let fo = file_order(hits, ranges);
            &&& forall|i: int, j: int|
                0 <= i < j < fo.len() ==> file_score(hits, #[trigger] fo[i]) >= file_score(hits, #[trigger] fo[j])
            &&& fo.no_duplicates()
            &&& forall|f: i64| fo.contains(f) <==> exists|k: int| 0 <= k < ranges.len() && #[trigger] ranges[k].file_id == f
        }),
{
    broadcast use vstd::seq_lib::group_to_multiset_ensures;

    let ids = ranges.map_values(|r: NodeRange| r.file_id);
    let d = dedup(ids);
    let fo = file_order(hits, ranges);
    lemma_sort_ranked(d, hits);
    assert forall|i: int, j: int| 0 <= i < j < fo.len() implies file_score(hits, #[trigger] fo[i]) >= file_score(
        hits,
        #[trigger] fo[j],
    ) by {
        assert((score_desc(hits))(fo[i], fo[j]));
    }
    crate::text::lemma_dedup_no_dup(ids);
    d.lemma_multiset_has_no_duplicates();
    assert forall|x: i64| fo.to_multiset().contains(x) implies fo.to_multiset().count(x) == 1 by {
        assert(d.to_multiset().contains(x));
    }
    fo.lemma_multiset_has_no_duplicates_conv();
    assert forall|f: i64| fo.contains(f) <==> exists|k: int| 0 <= k < ranges.len() && #[trigger] ranges[k].file_id == f by {
        crate::text::lemma_dedup_contains(ids, f);
        assert(fo.contains(f) <==> fo.to_multiset().count(f) > 0);
        assert(d.contains(f) <==> d.to_multiset().count(f) > 0);
        if ids.contains(f) {
            let k = choose|k: int| 0 <= k < ids.len() && ids[k] == f;
            assert(ranges[k].file_id == f);
        }
        if exists|k: int| 0 <= k < ranges.len() && #[trigger] ranges[k].file_id == f {
            let k = choose|k: int| 0 <= k < ranges.len() && #[trigger] ranges[k].file_id == f;
            assert(ids[k] == f);
        }
    }
}

} // verus!
