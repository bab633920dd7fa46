//! Token-budget planning: merging matched line ranges into excerpts and
//! cutting excerpts out of files, plus the pieces a capsule is made of.
use vstd::prelude::*;

use crate::text::{append_chars, chars_of, copy_chars, join, join_chars, pieces, string_of, views};
use crate::types::{DetailLevel, Intent};

pub use crate::capsule::allocation::{allocate, AllocationInputs, BudgetConfig};

verus! {

/// Matching files of one cluster, collapsed behind a representative.
#[derive(Debug)]
pub struct ClusterRollup {
    pub cluster_name: String,
    pub representative_file: String,
    /// (file path, name of the matching symbol)
    pub matched_siblings: Vec<(String, String)>,
}

/// What the budget allocation selected for a capsule.
#[derive(Debug)]
pub struct BudgetAllocation {
    /// Excerpts of the most relevant files (whole files or line ranges).
    pub pivots: Vec<PivotExcerpt>,
    /// Signatures of graph neighbours of the pivots.
    pub bridges: Vec<BridgeExcerpt>,
    /// Supporting files included as skeletons.
    pub skeletons: Vec<SkeletonFile>,
    /// Matching files collapsed by cluster.
    pub rollups: Vec<ClusterRollup>,
    /// Files that matched but did not fit the budget.
    pub unallocated_matches: Vec<UnallocatedMatch>,
    /// Tokens used in all.
    pub total_tokens: usize,
}

/// A matching file left out for want of budget.
#[derive(Debug)]
pub struct UnallocatedMatch {
    pub path: String,
    /// Relevance score in hundredths.
    pub score: u64,
}

/// An excerpt of a relevant file: the whole file or a merged line range.
#[derive(Debug)]
pub struct PivotExcerpt {
    pub file_id: i64,
    pub path: String,
    pub content: String,
    pub tokens: usize,
    /// Relevance score in hundredths.
    pub relevance_score: u64,
    pub line_start: usize,
    pub line_end: usize,
    pub is_full_file: bool,
    pub node_names: Vec<String>,
}

/// The signature of a graph neighbour of a pivot.
#[derive(Debug)]
pub struct BridgeExcerpt {
    pub file_id: i64,
    pub path: String,
    pub signature: String,
    pub tokens: usize,
    pub node_name: String,
}

/// A supporting file included as a skeleton.
#[derive(Debug)]
pub struct SkeletonFile {
    pub file_id: i64,
    pub path: String,
    pub skeleton: String,
    pub tokens: usize,
    pub level: DetailLevel,
}

/// A merged, padded line range within a file and the symbols it covers.
#[derive(Debug, Clone)]
pub struct MergedRange {
    pub line_start: usize,
    pub line_end: usize,
    pub node_names: Vec<String>,
}

/// A matched range as plain values: (first line, last line, symbol name).
pub type RangeView = (int, int, Seq<char>);

pub struct MergedView {
    pub start: int,
    pub end: int,
    pub names: Seq<Seq<char>>,
}

pub open spec fn range_view(r: (usize, usize, String)) -> RangeView {
    (r.0 as int, r.1 as int, r.2@)
}

pub open spec fn merged_view(m: MergedRange) -> MergedView {
    MergedView {
        start: m.line_start as int,
        end: m.line_end as int,
        names: m.node_names@.map_values(|s: String| s@),
    }
}

/// A range widened by `padding` lines on both sides, kept within
/// `1..=total_lines` at the ends it was widened.
pub open spec fn padded(r: RangeView, total_lines: int, padding: int) -> RangeView {
    let s = if r.0 - padding < 1 {
        1
    } else {
        r.0 - padding
    };
    let e = if r.1 + padding > total_lines {
        total_lines
    } else {
        r.1 + padding
    };
    (s, e, r.2)
}

/// Inserts `x` after the last element (from the end) whose start is at most
/// `x`'s start, so that equal starts keep their order.
pub open spec fn insert_by_start(sorted: Seq<RangeView>, x: RangeView) -> Seq<RangeView>
    decreases sorted.len(),
{
    if sorted.len() == 0 {
        seq![x]
    } else if sorted.last().0 <= x.0 {
        sorted.push(x)
    } else {
        insert_by_start(sorted.drop_last(), x).push(sorted.last())
    }
}

/// The stable sort of ranges by their first line.
pub open spec fn sort_by_start(s: Seq<RangeView>) -> Seq<RangeView>
    decreases s.len(),
{
    if s.len() == 0 {
        seq![]
    } else {
        insert_by_start(sort_by_start(s.drop_last()), s.last())
    }
}

pub open spec fn single(x: RangeView) -> MergedView {
    MergedView { start: x.0, end: x.1, names: seq![x.2] }
}

/// Greedy merge of start-sorted ranges: a range that starts at most one line
/// after the end of the current merged range joins it, otherwise it opens a
/// new one.
pub open spec fn merge_fold(p: Seq<RangeView>) -> Seq<MergedView>
    decreases p.len(),
{
    if p.len() == 0 {
        seq![]
    } else if p.len() == 1 {
        seq![single(p[0])]
    } else {
        let m = merge_fold(p.drop_last());
        let x = p.last();
        let l = m.last();
        if x.0 <= l.end + 1 {
            m.update(
                m.len() - 1,
                MergedView {
                    start: l.start,
                    end: if l.end >= x.1 {
                        l.end
                    } else {
                        x.1
                    },
                    names: l.names.push(x.2),
                },
            )
        } else {
            m.push(single(x))
        }
    }
}

/// The merged ranges for the given matches.
pub open spec fn merged_ranges(ranges: Seq<RangeView>, total_lines: int, padding: int) -> Seq<MergedView> {
    merge_fold(sort_by_start(ranges.map_values(|r: RangeView| padded(r, total_lines, padding))))
}

/// The lines of a text (`str::lines`): cut at `\n`, a `\r` right before a cut
/// removed, and no empty last line after a final line break.
pub open spec fn text_lines(s: Seq<char>) -> Seq<Seq<char>> {
    let p = pieces(s, '\n');
    let body = p.take(p.len() - 1).map_values(
        |l: Seq<char>|
            if l.len() > 0 && l.last() == '\r' {
                l.drop_last()
            } else {
                l
            },
    );
    if p.last().len() == 0 {
        body
    } else {
        body.push(p.last())
    }
}

/// The lines numbered `start..=end` (1-based) of a text, joined by `\n`.
pub open spec fn line_excerpt(s: Seq<char>, start: int, end: int) -> Seq<char> {
    let ls = text_lines(s);
    let lo = if start < 1 {
        0
    } else {
        start - 1
    };
    let hi = if end > ls.len() {
        ls.len() as int
    } else {
        end
    };
    if lo >= hi {
        seq![]
    } else {
        join(ls.subrange(lo, hi), seq!['\n'])
    }
}

pub open spec fn total_names(m: Seq<MergedView>) -> nat
    decreases m.len(),
{
    if m.len() == 0 {
        0
    } else {
        total_names(m.drop_last()) + m.last().names.len()
    }
}

/// Merging never loses or duplicates a range, and the merged ranges it
/// produces are separated: each starts more than one line after the previous
/// one ends.
pub proof fn lemma_merge_fold_separated(p: Seq<RangeView>)
    ensures
        forall|k: int| 0 <= k < merge_fold(p).len() - 1 ==> #[trigger] merge_fold(p)[k + 1].start
            > merge_fold(p)[k].end + 1,
        total_names(merge_fold(p)) == p.len(),
        p.len() > 0 ==> merge_fold(p).len() > 0,
    decreases p.len(),
{
    if p.len() == 1 {
        let m = seq![single(p[0])];
        assert(m.drop_last() =~= Seq::<MergedView>::empty());
        assert(total_names(m) == total_names(m.drop_last()) + 1);
    }
    if p.len() > 1 {
        let q = p.drop_last();
        lemma_merge_fold_separated(q);
        let m = merge_fold(q);
        let x = p.last();
        let l = m.last();
        if x.0 <= l.end + 1 {
            let nl = MergedView {
                start: l.start,
                end: if l.end >= x.1 {
                    l.end
                } else {
                    x.1
                },
                names: l.names.push(x.2),
            };
            let m2 = m.update(m.len() - 1, nl);
            assert(m2.drop_last() =~= m.drop_last());
            assert(total_names(m2) == total_names(m.drop_last()) + l.names.len() + 1);
            assert forall|k: int| 0 <= k < m2.len() - 1 implies #[trigger] m2[k + 1].start > m2[k].end
                + 1 by {
                assert(m2[k] == m[k]);
                if k + 1 < m2.len() - 1 {
                    assert(m2[k + 1] == m[k + 1]);
                }
            }
        } else {
            let m2 = m.push(single(x));
            assert(m2.drop_last() =~= m);
            assert(total_names(m2) == total_names(m) + 1);
            assert forall|k: int| 0 <= k < m2.len() - 1 implies #[trigger] m2[k + 1].start > m2[k].end
                + 1 by {
                assert(m2[k] == m[k]);
                if k + 1 < m2.len() - 1 {
                    assert(m2[k + 1] == m[k + 1]);
                }
            }
        }
    }
}

/// The merged ranges of any set of matches are separated by at least one
/// unlisted line, and together they name every match exactly once.
pub proof fn lemma_merged_ranges_separated(ranges: Seq<RangeView>, total_lines: int, padding: int)
    ensures
        forall|k: int|
            0 <= k < merged_ranges(ranges, total_lines, padding).len() - 1 ==> #[trigger] merged_ranges(
                ranges,
                total_lines,
                padding,
            )[k + 1].start > merged_ranges(ranges, total_lines, padding)[k].end + 1,
        total_names(merged_ranges(ranges, total_lines, padding)) == ranges.len(),
{
    let pv = ranges.map_values(|r: RangeView| padded(r, total_lines, padding));
    lemma_sort_len(pv);
    lemma_merge_fold_separated(sort_by_start(pv));
}

proof fn lemma_sort_len(s: Seq<RangeView>)
    ensures
        sort_by_start(s).len() == s.len(),
    decreases s.len(),
{
    if s.len() > 0 {
        lemma_sort_len(s.drop_last());
        lemma_insert_len(sort_by_start(s.drop_last()), s.last());
    }
}

proof fn lemma_insert_len(s: Seq<RangeView>, x: RangeView)
    ensures
        insert_by_start(s, x).len() == s.len() + 1,
    decreases s.len(),
{
    if s.len() > 0 && s.last().0 > x.0 {
        lemma_insert_len(s.drop_last(), x);
    }
}

// ---------------------------------------------------------------------------

proof fn lemma_insert_shape(s: Seq<RangeView>, x: RangeView, k: int)
    requires
        0 <= k <= s.len(),
        forall|t: int| k <= t < s.len() ==> s[t].0 > x.0,
        k == 0 || s[k - 1].0 <= x.0,
    ensures
        insert_by_start(s, x) == s.take(k) + seq![x] + s.skip(k),
    decreases s.len(),
{
    if s.len() == 0 {
        assert(s.take(k) + seq![x] + s.skip(k) =~= seq![x]);
    } else if s.last().0 <= x.0 {
        assert(k == s.len());
        assert(s.take(k) + seq![x] + s.skip(k) =~= s.push(x));
    } else {
        lemma_insert_shape(s.drop_last(), x, k);
        assert(s.drop_last().take(k) + seq![x] + s.drop_last().skip(k) + seq![s.last()] =~= s.take(k)
            + seq![x] + s.skip(k));
    }
}

/// Inserts `x` into `v` as [`insert_by_start`] does.
fn insert_sorted(v: &mut Vec<(usize, usize, String)>, x: (usize, usize, String))
    ensures
        final(v)@.map_values(|r: (usize, usize, String)| range_view(r)) == insert_by_start(
            old(v)@.map_values(|r: (usize, usize, String)| range_view(r)),
            range_view(x),
        ),
{
    let ghost s = v@.map_values(|r: (usize, usize, String)| range_view(r));
    let mut k: usize = v.len();
    while k > 0 && v[k - 1].0 > x.0
        invariant
            k <= v@.len(),
            v@ == old(v)@,
            s == v@.map_values(|r: (usize, usize, String)| range_view(r)),
            forall|t: int| k <= t < v@.len() ==> s[t].0 > x.0,
        decreases k,
    {
        k -= 1;
    }
    proof {
        lemma_insert_shape(s, range_view(x), k as int);
    }
    let ghost xv = range_view(x);
    v.insert(k, x);
    assert(v@.map_values(|r: (usize, usize, String)| range_view(r)) =~= s.take(k as int) + seq![xv]
        + s.skip(k as int));
}

fn copy_names(v: &Vec<String>) -> (r: Vec<String>)
    ensures
        r@.map_values(|s: String| s@) == v@.map_values(|s: String| s@),
{
    let mut r: Vec<String> = Vec::new();
    let mut i: usize = 0;
    while i < v.len()
        invariant
            i <= v.len(),
            r@.map_values(|s: String| s@) == v@.map_values(|s: String| s@).take(i as int),
        decreases v.len() - i,
    {
        let c = v[i].clone();
        let ghost o = r@;
        r.push(c);
        assert(r@.map_values(|s: String| s@) =~= o.map_values(|s: String| s@).push(c@));
        assert(v@.map_values(|s: String| s@).take(i as int + 1) =~= v@.map_values(|s: String| s@).take(i as int).push(v@[i as int]@));
        i += 1;
    }
    assert(v@.map_values(|s: String| s@).take(v.len() as int) =~= v@.map_values(|s: String| s@));
    r
}

/// Merges overlapping or adjacent matched line ranges after widening each by
/// `context_padding` lines (clamped to `1..=total_lines`): the padded ranges
/// are sorted stably by first line and a range that starts at most one line
/// after the current merged range joins it.
pub fn merge_ranges(ranges: &[(usize, usize, String)], total_lines: usize, context_padding: usize) -> (r: Vec<MergedRange>)
    requires
        total_lines < usize::MAX,
        forall|i: int| 0 <= i < ranges@.len() ==> (#[trigger] ranges@[i]).1 + context_padding <= usize::MAX,
    ensures
        r@.map_values(|m: MergedRange| merged_view(m)) == merged_ranges(
            ranges@.map_values(|x: (usize, usize, String)| range_view(x)),
            total_lines as int,
            context_padding as int,
        ),
{
    let ghost rv = ranges@.map_values(|x: (usize, usize, String)| range_view(x));
    let ghost pv = rv.map_values(|x: RangeView| padded(x, total_lines as int, context_padding as int));
    let mut sorted: Vec<(usize, usize, String)> = Vec::new();
    let mut i: usize = 0;
    while i < ranges.len()
        invariant
            i <= ranges@.len(),
            total_lines < usize::MAX,
            rv == ranges@.map_values(|x: (usize, usize, String)| range_view(x)),
            pv == rv.map_values(|x: RangeView| padded(x, total_lines as int, context_padding as int)),
            forall|t: int| 0 <= t < ranges@.len() ==> (#[trigger] ranges@[t]).1 + context_padding <= usize::MAX,
            sorted@.map_values(|r: (usize, usize, String)| range_view(r)) == sort_by_start(pv.take(i as int)),
            forall|t: int| 0 <= t < sorted@.len() ==> (#[trigger] sorted@[t]).1 <= total_lines,
        decreases ranges@.len() - i,
    {
        let (start, end, ref name) = ranges[i];
        let s = if start >= context_padding && start - context_padding >= 1 {
            start - context_padding
        } else {
            1
        };
        let e = if end + context_padding > total_lines {
            total_lines
        } else {
            end + context_padding
        };
        let nm = name.clone();
        let x = (s, e, nm);
        assert(range_view(x) == pv[i as int]);
        assert(pv.take(i as int + 1).drop_last() =~= pv.take(i as int));
        let ghost before = sorted@;
        let ghost bv = before.map_values(|r: (usize, usize, String)| range_view(r));
        proof {
            assert forall|q: int| 0 <= q < bv.len() implies #[trigger] bv[q].1 <= total_lines by {
                assert(bv[q] == range_view(before[q]));
            }
            lemma_insert_members(bv, range_view(x), total_lines as int);
        }
        insert_sorted(&mut sorted, x);
        assert forall|t: int| 0 <= t < sorted@.len() implies (#[trigger] sorted@[t]).1 <= total_lines by {
            let w = sorted@.map_values(|r: (usize, usize, String)| range_view(r));
            assert(w[t] == range_view(sorted@[t]));
            assert(w == insert_by_start(bv, range_view(x)));
            assert(insert_by_start(bv, range_view(x))[t].1 <= total_lines);
        }
        i += 1;
    }
    assert(pv.take(ranges@.len() as int) =~= pv);
    let mut out: Vec<MergedRange> = Vec::new();
    let mut j: usize = 0;
    let ghost sv = sort_by_start(pv);
    while j < sorted.len()
        invariant
            j <= sorted@.len(),
            total_lines < usize::MAX,
            sv == sorted@.map_values(|r: (usize, usize, String)| range_view(r)),
            forall|t: int| 0 <= t < sorted@.len() ==> (#[trigger] sorted@[t]).1 <= total_lines,
            out@.map_values(|m: MergedRange| merged_view(m)) == merge_fold(sv.take(j as int)),
            j > 0 ==> out@.len() > 0,
            forall|t: int| 0 <= t < out@.len() ==> (#[trigger] out@[t]).line_end <= total_lines,
        decreases sorted@.len() - j,
    {
        let (start, end, ref name) = sorted[j];
        assert(sv[j as int] == range_view(sorted@[j as int]));
        assert(sv.take(j as int + 1).drop_last() =~= sv.take(j as int));
        let ghost mv = out@.map_values(|m: MergedRange| merged_view(m));
        if j == 0 {
            let mut names: Vec<String> = Vec::new();
            names.push(name.clone());
            let m = MergedRange { line_start: start, line_end: end, node_names: names };
            out.push(m);
            assert(merged_view(m).names =~= seq![name@]);
            assert(out@.map_values(|m: MergedRange| merged_view(m)) =~= seq![single(sv[0])]);
        } else {
            let last = out.pop().unwrap();
            assert(mv.last() == merged_view(last));
            if start <= last.line_end + 1 {
                let new_end = if last.line_end >= end {
                    last.line_end
                } else {
                    end
                };
                let mut names = copy_names(&last.node_names);
                let ghost onames = names@;
                names.push(name.clone());
                assert(names@.map_values(|s: String| s@) =~= onames.map_values(|s: String| s@).push(name@));
                let m = MergedRange { line_start: last.line_start, line_end: new_end, node_names: names };
                out.push(m);
                assert(out@.map_values(|m: MergedRange| merged_view(m)) =~= mv.update(
                    mv.len() - 1,
                    merged_view(m),
                ));
            } else {
                out.push(last);
                let mut names: Vec<String> = Vec::new();
                names.push(name.clone());
                let m = MergedRange { line_start: start, line_end: end, node_names: names };
                out.push(m);
                assert(merged_view(m).names =~= seq![name@]);
                assert(out@.map_values(|m: MergedRange| merged_view(m)) =~= mv.push(single(sv[j as int])));
            }
        }
        j += 1;
    }
    assert(sv.take(sorted@.len() as int) =~= sv);
    out
}

proof fn lemma_insert_members(s: Seq<RangeView>, x: RangeView, bound: int)
    requires
        forall|q: int| 0 <= q < s.len() ==> #[trigger] s[q].1 <= bound,
        x.1 <= bound,
    ensures
        forall|q: int| 0 <= q < insert_by_start(s, x).len() ==> #[trigger] insert_by_start(s, x)[q].1 <= bound,
        insert_by_start(s, x).len() == s.len() + 1,
    decreases s.len(),
{
    if s.len() > 0 && s.last().0 > x.0 {
        lemma_insert_members(s.drop_last(), x, bound);
        let t = insert_by_start(s.drop_last(), x);
        assert forall|q: int| 0 <= q < t.push(s.last()).len() implies #[trigger] t.push(s.last())[q].1 <= bound by {
            if q < t.len() {
                assert(t.push(s.last())[q] == t[q]);
            }
        }
    }
}

/// All pieces of `v` cut at every `sep`, empty ones included.
fn split_pieces(v: &Vec<char>, sep: char) -> (r: Vec<Vec<char>>)
    ensures
        views(r@) == pieces(v@, sep),
{
    let mut out: Vec<Vec<char>> = Vec::new();
    let mut cur: Vec<char> = Vec::new();
    let mut i: usize = 0;
    while i < v.len()
        invariant
            i <= v.len(),
            views(out@).push(cur@) == pieces(v@.take(i as int), sep),
        decreases v.len() - i,
    {
        let ghost before = views(out@).push(cur@);
        assert(v@.take(i as int + 1).drop_last() =~= v@.take(i as int));
        if v[i] == sep {
            let done = cur;
            cur = Vec::new();
            out.push(done);
            assert(views(out@).push(cur@) =~= before.push(seq![]));
        } else {
            cur.push(v[i]);
            assert(views(out@).push(cur@) =~= before.update(before.len() - 1, before.last().push(v@[i as int])));
        }
        i += 1;
    }
    out.push(cur);
    assert(v@.take(v.len() as int) =~= v@);
    out
}

/// The lines of a text (`str::lines`).
pub fn extract_lines_all(content: &str) -> (r: Vec<Vec<char>>)
    ensures
        views(r@) == text_lines(content@),
{
    let v = chars_of(content);
    let p = split_pieces(&v, '\n');
    proof {
        crate::text::lemma_pieces_len(v@, '\n');
    }
    let n = p.len();
    let mut lines: Vec<Vec<char>> = Vec::new();
    let mut i: usize = 0;
    let ghost pv = views(p@);
    let ghost body = pv.take(pv.len() - 1).map_values(
        |l: Seq<char>|
            if l.len() > 0 && l.last() == '\r' {
                l.drop_last()
            } else {
                l
            },
    );
    while i < n - 1
        invariant
            n == p@.len(),
            n >= 1,
            i <= n - 1,
            pv == views(p@),
            body == pv.take(pv.len() - 1).map_values(
                |l: Seq<char>|
                    if l.len() > 0 && l.last() == '\r' {
                        l.drop_last()
                    } else {
                        l
                    },
            ),
            views(lines@) == body.take(i as int),
        decreases n - 1 - i,
    {
        let l = &p[i];
        let mut c = copy_chars(l);
        if c.len() > 0 && c[c.len() - 1] == '\r' {
            c.pop();
        }
        assert(c@ == body[i as int]);
        let ghost o = lines@;
        lines.push(c);
        assert(views(lines@) =~= views(o).push(c@));
        assert(body.take(i as int + 1) =~= body.take(i as int).push(body[i as int]));
        i += 1;
    }
    assert(body.take(n - 1) =~= body);
    if p[n - 1].len() > 0 {
        let c = copy_chars(&p[n - 1]);
        let ghost o = lines@;
        lines.push(c);
        assert(views(lines@) =~= views(o).push(c@));
    }
    lines
}

/// Extracts lines `start..=end` (1-indexed, inclusive) of `content`, joined
/// by `\n`.
pub fn extract_lines(content: &str, start: usize, end: usize) -> (r: String)
    ensures
        r@ == line_excerpt(content@, start as int, end as int),
{
    let lines = extract_lines_all(content);
    let len = lines.len();
    let lo: usize = if start < 1 {
        0
    } else {
        start - 1
    };
    let hi: usize = if end > len {
        len
    } else {
        end
    };
    if lo >= hi {
        return String::new();
    }
    let mut sel: Vec<Vec<char>> = Vec::new();
    let mut k: usize = lo;
    while k < hi
        invariant
            lo <= k <= hi,
            hi <= lines@.len(),
            views(sel@) == views(lines@).subrange(lo as int, k as int),
        decreases hi - k,
    {
        let c = copy_chars(&lines[k]);
        let ghost o = sel@;
        sel.push(c);
        assert(views(sel@) =~= views(o).push(c@));
        assert(c@ == views(lines@)[k as int]);
        assert(views(sel@) =~= views(lines@).subrange(lo as int, k as int + 1));
        k += 1;
    }
    let mut nl: Vec<char> = Vec::new();
    nl.push('\n');
    let j = join_chars(&sel, &nl);
    string_of(&j)
}

// ---------------------------------------------------------------------------
// Allocation decisions
// ---------------------------------------------------------------------------

/// How a token budget is shared among pivots, bridges and skeletons.
#[derive(Debug, Clone, Copy, PartialEq, Eq, Structural)]
pub struct BudgetSplit {
    pub pivot: usize,
    pub bridge: usize,
    pub skeleton: usize,
}

/// The budget left once `overhead_reserve_pct` percent is set aside.
pub open spec fn usable_budget(budget: nat, overhead_reserve_pct: nat) -> nat {
    (budget * (100 - overhead_reserve_pct) as nat / 100) as nat
}

/// Reserves `overhead_reserve_pct` percent of the budget, then gives
/// `pivot_budget_pct` and `bridge_budget_pct` percent of the rest (rounded
/// down) to pivots and bridges and what remains to skeletons.
pub fn split_budget(
    budget: usize,
    overhead_reserve_pct: usize,
    pivot_budget_pct: usize,
    bridge_budget_pct: usize,
) -> (r: BudgetSplit)
    requires
        overhead_reserve_pct <= 100,
        budget * (100 - overhead_reserve_pct) <= usize::MAX,
        usable_budget(budget as nat, overhead_reserve_pct as nat) * pivot_budget_pct <= usize::MAX,
        usable_budget(budget as nat, overhead_reserve_pct as nat) * bridge_budget_pct <= usize::MAX,
        usable_budget(budget as nat, overhead_reserve_pct as nat) * pivot_budget_pct / 100
            + usable_budget(budget as nat, overhead_reserve_pct as nat) * bridge_budget_pct / 100
            <= usable_budget(budget as nat, overhead_reserve_pct as nat),
    ensures
        r.pivot == usable_budget(budget as nat, overhead_reserve_pct as nat) * pivot_budget_pct / 100,
        r.bridge == usable_budget(budget as nat, overhead_reserve_pct as nat) * bridge_budget_pct / 100,
        r.pivot + r.bridge + r.skeleton == usable_budget(budget as nat, overhead_reserve_pct as nat),
{
    let usable = budget * (100 - overhead_reserve_pct) / 100;
    let pivot = usable * pivot_budget_pct / 100;
    let bridge = usable * bridge_budget_pct / 100;
    BudgetSplit { pivot, bridge, skeleton: usable - pivot - bridge }
}

/// The skeleton detail preferred when this many files score high: detailed
/// for at most three, standard for at most ten, minimal beyond.
pub open spec fn preferred_level(significant_files: nat) -> DetailLevel {
    if significant_files <= 3 {
        DetailLevel::Detailed
    } else if significant_files <= 10 {
        DetailLevel::Standard
    } else {
        DetailLevel::Minimal
    }
}

/// Chooses the skeleton detail level from the number of significant files.
pub fn detail_level_for(significant_files: usize) -> (r: DetailLevel)
    ensures
        r == preferred_level(significant_files as nat),
{
    if significant_files <= 3 {
        DetailLevel::Detailed
    } else if significant_files <= 10 {
        DetailLevel::Standard
    } else {
        DetailLevel::Minimal
    }
}

/// The levels tried for a skeleton, from the preferred one down to minimal.
pub open spec fn fallback_levels(preferred: DetailLevel) -> Seq<DetailLevel> {
    match preferred {
        DetailLevel::Detailed => seq![DetailLevel::Detailed, DetailLevel::Standard, DetailLevel::Minimal],
        DetailLevel::Standard => seq![DetailLevel::Standard, DetailLevel::Minimal],
        DetailLevel::Minimal => seq![DetailLevel::Minimal],
    }
}

/// The detail levels to try for a skeleton, most detailed first.
pub fn levels_to_try(preferred: DetailLevel) -> (r: Vec<DetailLevel>)
    ensures
        r@ == fallback_levels(preferred),
{
    match preferred {
        DetailLevel::Detailed => vec![DetailLevel::Detailed, DetailLevel::Standard, DetailLevel::Minimal],
        DetailLevel::Standard => vec![DetailLevel::Standard, DetailLevel::Minimal],
        DetailLevel::Minimal => vec![DetailLevel::Minimal],
    }
}

/// Lines of context around a matched symbol: at most two when looking for
/// usages, the configured amount otherwise.
pub fn pivot_padding(intent: Intent, context_padding: usize) -> (r: usize)
    ensures
        r == (if intent == Intent::BlastRadius && context_padding > 2 {
            2
        } else {
            context_padding
        }),
{
    if intent == Intent::BlastRadius && context_padding > 2 {
        2
    } else {
        context_padding
    }
}

/// Whether a pivot file is included whole rather than as excerpts: never
/// when looking for usages; otherwise when it is short (under fifty lines) or
/// the matches cover at least half of its symbols.
pub fn use_full_file(intent: Intent, total_lines: usize, total_node_count: usize, matched_count: usize) -> (r: bool)
    ensures
        r == (intent != Intent::BlastRadius && (total_lines < 50 || (total_node_count > 0
            && matched_count * 2 >= total_node_count))),
{
    if intent == Intent::BlastRadius {
        false
    } else {
        total_lines < 50 || (total_node_count > 0 && (matched_count >= total_node_count
            || matched_count >= total_node_count - matched_count))
    }
}

/// Whether a symbol's lines lie within a merged excerpt, so that the symbol
/// counts as included (the stored line numbers read as `usize`).
pub fn range_covers(excerpt: &MergedRange, line_start: i64, line_end: i64) -> (r: bool)
    ensures
        r == ((line_start as usize) >= excerpt.line_start && (line_end as usize) <= excerpt.line_end),
{
    (line_start as usize) >= excerpt.line_start && (line_end as usize) <= excerpt.line_end
}

// ---------------------------------------------------------------------------
// Clusters and skeleton candidates
// ---------------------------------------------------------------------------

/// A search match as far as grouping is concerned.
#[derive(Debug, Clone)]
pub struct RankedMatch {
    pub file_id: i64,
    pub file_path: String,
    pub name: String,
    pub cluster_id: Option<String>,
}

/// What the grouping phase decides: the cluster rollups, in the order they
/// were opened, and the matches (by index) whose files become skeleton
/// candidates, in order.
#[derive(Debug)]
pub struct RollupPlan {
    pub rollups: Vec<ClusterRollup>,
    pub skeleton_candidates: Vec<usize>,
}

pub type PairView = (Seq<char>, Seq<char>);

/// (cluster name, representative file, matched siblings)
pub type RollupView = (Seq<char>, Seq<char>, Seq<PairView>);

pub open spec fn pair_view(p: (String, String)) -> PairView {
    (p.0@, p.1@)
}

pub open spec fn rollup_view(r: ClusterRollup) -> RollupView {
    (r.cluster_name@, r.representative_file@, r.matched_siblings@.map_values(|p: (String, String)| pair_view(p)))
}

/// The value of the last pair with key `k`: a map where later entries win.
pub open spec fn lookup_last(pairs: Seq<PairView>, k: Seq<char>) -> Option<Seq<char>>
    decreases pairs.len(),
{
    if pairs.len() == 0 {
        None
    } else if pairs.last().0 == k {
        Some(pairs.last().1)
    } else {
        lookup_last(pairs.drop_last(), k)
    }
}

/// The position of the rollup of cluster `k`.
pub open spec fn rollup_index(rollups: Seq<RollupView>, k: Seq<char>) -> Option<int>
    decreases rollups.len(),
{
    if rollups.len() == 0 {
        None
    } else if rollups.last().0 == k {
        Some(rollups.len() - 1)
    } else {
        rollup_index(rollups.drop_last(), k)
    }
}

/// The grouping state: files already placed, cluster representatives,
/// rollups, files already offered as skeletons, and the skeleton candidates.
pub struct GroupingView {
    pub seen: Seq<i64>,
    pub clusters: Seq<PairView>,
    pub rollups: Seq<RollupView>,
    pub skel_seen: Seq<i64>,
    pub skel: Seq<int>,
}

/// One match through the grouping phase. A match of a file already placed is
/// passed over. A match of a cluster that has a representative joins that
/// cluster's rollup (opened on first need) and its file counts as placed. A
/// match of a new cluster makes its file the representative. Unless it joined
/// a rollup, the match's file becomes a skeleton candidate the first time it
/// is seen.
pub open spec fn grouping_step(st: GroupingView, idx: int, m: RankedMatch) -> GroupingView {
    if st.seen.contains(m.file_id) {
        st
    } else {
        let joined = match m.cluster_id {
            Some(c) => lookup_last(st.clusters, c@) is Some,
            None => false,
        };
        if joined {
            let c = m.cluster_id->0@;
            let rep = lookup_last(st.clusters, c)->0;
            let sib = (m.file_path@, m.name@);
            let rollups = match rollup_index(st.rollups, c) {
                Some(j) => st.rollups.update(j, (st.rollups[j].0, st.rollups[j].1, st.rollups[j].2.push(sib))),
                None => st.rollups.push((c, rep, seq![sib])),
            };
            GroupingView { seen: st.seen.push(m.file_id), rollups, ..st }
        } else {
            let clusters = match m.cluster_id {
                Some(c) => st.clusters.push((c@, m.file_path@)),
                None => st.clusters,
            };
            if st.skel_seen.contains(m.file_id) {
                GroupingView { clusters, ..st }
            } else {
                GroupingView {
                    clusters,
                    skel_seen: st.skel_seen.push(m.file_id),
                    skel: st.skel.push(idx),
                    ..st
                }
            }
        }
    }
}

/// The grouping state after the first matches.
pub open spec fn grouping(start: GroupingView, matches: Seq<RankedMatch>) -> GroupingView
    decreases matches.len(),
{
    if matches.len() == 0 {
        start
    } else {
        grouping_step(
            grouping(start, matches.drop_last()),
            matches.len() - 1,
            matches.last(),
        )
    }
}

fn contains_id(v: &Vec<i64>, x: i64) -> (r: bool)
    ensures
        r == v@.contains(x),
{
    let mut i: usize = 0;
    while i < v.len()
        invariant
            i <= v.len(),
            forall|j: int| 0 <= j < i ==> v@[j] != x,
        decreases v.len() - i,
    {
        if v[i] == x {
            assert(v@[i as int] == x);
            return true;
        }
        i += 1;
    }
    false
}

fn lookup_last_exec(pairs: &Vec<(String, String)>, k: &String) -> (r: Option<String>)
    ensures
        match r {
            Some(v) => lookup_last(pairs@.map_values(|p: (String, String)| pair_view(p)), k@) == Some(v@),
            None => lookup_last(pairs@.map_values(|p: (String, String)| pair_view(p)), k@) is None,
        },
{
    let ghost pv = pairs@.map_values(|p: (String, String)| pair_view(p));
    let mut i: usize = pairs.len();
    assert(pv.take(i as int) =~= pv);
    while i > 0
        invariant
            i <= pairs@.len(),
            pv == pairs@.map_values(|p: (String, String)| pair_view(p)),
            lookup_last(pv, k@) == lookup_last(pv.take(i as int), k@),
        decreases i,
    {
        assert(pv.take(i as int).drop_last() =~= pv.take(i - 1));
        if pairs[i - 1].0 == *k {
            return Some(pairs[i - 1].1.clone());
        }
        i -= 1;
    }
    None
}

fn rollup_index_exec(rollups: &Vec<ClusterRollup>, k: &String) -> (r: Option<usize>)
    ensures
        match r {
            Some(j) => rollup_index(rollups@.map_values(|x: ClusterRollup| rollup_view(x)), k@) == Some(
                j as int,
            ) && j < rollups@.len(),
            None => rollup_index(rollups@.map_values(|x: ClusterRollup| rollup_view(x)), k@) is None,
        },
{
    let ghost rv = rollups@.map_values(|x: ClusterRollup| rollup_view(x));
    let mut i: usize = rollups.len();
    assert(rv.take(i as int) =~= rv);
    while i > 0
        invariant
            i <= rollups@.len(),
            rv == rollups@.map_values(|x: ClusterRollup| rollup_view(x)),
            rollup_index(rv, k@) == rollup_index(rv.take(i as int), k@),
        decreases i,
    {
        assert(rv.take(i as int).drop_last() =~= rv.take(i - 1));
        if rollups[i - 1].cluster_name == *k {
            return Some(i - 1);
        }
        i -= 1;
    }
    None
}

pub open spec fn start_grouping(seen: Seq<i64>, pivot_clusters: Seq<(String, String)>) -> GroupingView {
    GroupingView {
        seen,
        clusters: pivot_clusters.map_values(|p: (String, String)| pair_view(p)),
        rollups: Seq::empty(),
        skel_seen: Seq::empty(),
        skel: Seq::empty(),
    }
}

/// Groups the matches that did not become pivots. `placed_files` are the
/// files the pivot phase went through; `pivot_clusters` are the (cluster,
/// file path) of the pivots' best matches, later entries taking precedence.
pub fn plan_rollups(
    matches: &[RankedMatch],
    placed_files: &Vec<i64>,
    pivot_clusters: &Vec<(String, String)>,
) -> (r: RollupPlan)
    ensures
        ({
            let g = grouping(start_grouping(placed_files@, pivot_clusters@), matches@);
            &&& r.rollups@.map_values(|x: ClusterRollup| rollup_view(x)) == g.rollups
            &&& r.skeleton_candidates@.map_values(|i: usize| i as int) == g.skel
        }),
{
    let ghost start = start_grouping(placed_files@, pivot_clusters@);
    let mut seen: Vec<i64> = Vec::new();
    let mut t: usize = 0;
    while t < placed_files.len()
        invariant
            t <= placed_files@.len(),
            seen@ == placed_files@.take(t as int),
        decreases placed_files.len() - t,
    {
        seen.push(placed_files[t]);
        assert(placed_files@.take(t as int + 1) =~= placed_files@.take(t as int).push(placed_files@[t as int]));
        t += 1;
    }
    assert(placed_files@.take(placed_files@.len() as int) =~= placed_files@);
    let mut clusters: Vec<(String, String)> = Vec::new();
    let mut t: usize = 0;
    while t < pivot_clusters.len()
        invariant
            t <= pivot_clusters@.len(),
            clusters@.map_values(|p: (String, String)| pair_view(p)) == pivot_clusters@.take(t as int).map_values(
                |p: (String, String)| pair_view(p),
            ),
        decreases pivot_clusters.len() - t,
    {
        let p = (pivot_clusters[t].0.clone(), pivot_clusters[t].1.clone());
        let ghost before = clusters@.map_values(|p: (String, String)| pair_view(p));
        assert(pair_view(p) == pair_view(pivot_clusters@[t as int]));
        assert(pivot_clusters@.take(t as int + 1) =~= pivot_clusters@.take(t as int).push(pivot_clusters@[t as int]));
        clusters.push(p);
        assert(clusters@.map_values(|p: (String, String)| pair_view(p)) =~= before.push(pair_view(p)));
        assert(clusters@.map_values(|p: (String, String)| pair_view(p)) =~= pivot_clusters@.take(
            t as int + 1,
        ).map_values(|p: (String, String)| pair_view(p)));
        t += 1;
    }
    assert(pivot_clusters@.take(pivot_clusters@.len() as int) =~= pivot_clusters@);
    let mut rollups: Vec<ClusterRollup> = Vec::new();
    let mut skel_seen: Vec<i64> = Vec::new();
    let mut skel: Vec<usize> = Vec::new();
    let mut i: usize = 0;
    assert(matches@.take(0) =~= Seq::<RankedMatch>::empty());
    while i < matches.len()
        invariant
            i <= matches@.len(),
            start == start_grouping(placed_files@, pivot_clusters@),
            ({
                let g = grouping(start, matches@.take(i as int));
                &&& seen@ == g.seen
                &&& clusters@.map_values(|p: (String, String)| pair_view(p)) == g.clusters
                &&& rollups@.map_values(|x: ClusterRollup| rollup_view(x)) == g.rollups
                &&& skel_seen@ == g.skel_seen
                &&& skel@.map_values(|i: usize| i as int) == g.skel
            }),
        decreases matches.len() - i,
    {
        let m = &matches[i];
        assert(matches@.take(i as int + 1).drop_last() =~= matches@.take(i as int));
        assert(matches@.take(i as int + 1).last() == matches@[i as int]);
        let ghost g0 = grouping(start, matches@.take(i as int));
        let ghost g1 = grouping(start, matches@.take(i as int + 1));
        assert(g1 == grouping_step(g0, i as int, *m));
        if contains_id(&seen, m.file_id) {
            i += 1;
            continue;
        }
        let rep = match &m.cluster_id {
            Some(c) => lookup_last_exec(&clusters, c),
            None => None,
        };
        match rep {
            Some(rep) => {
                let c = match &m.cluster_id {
                    Some(c) => c,
                    None => {
                        assert(false);
                        i += 1;
                        continue;
                    },
                };
                let sib = (m.file_path.clone(), m.name.clone());
                let ghost before = rollups@.map_values(|x: ClusterRollup| rollup_view(x));
                match rollup_index_exec(&rollups, c) {
                    Some(j) => {
                        let mut ru = rollups.remove(j);
                        let ghost old_sibs = ru.matched_siblings@;
                        ru.matched_siblings.push(sib);
                        assert(ru.matched_siblings@.map_values(|p: (String, String)| pair_view(p))
                            =~= old_sibs.map_values(|p: (String, String)| pair_view(p)).push(pair_view(sib)));
                        rollups.insert(j, ru);
                        assert(rollups@.map_values(|x: ClusterRollup| rollup_view(x)) =~= before.update(
                            j as int,
                            (before[j as int].0, before[j as int].1, before[j as int].2.push(pair_view(sib))),
                        ));
                    },
                    None => {
                        let ru = ClusterRollup {
                            cluster_name: c.clone(),
                            representative_file: rep,
                            matched_siblings: vec![sib],
                        };
                        rollups.push(ru);
                        assert(rollup_view(ru).2 =~= seq![pair_view(sib)]);
                        assert(rollups@.map_values(|x: ClusterRollup| rollup_view(x)) =~= before.push(
                            rollup_view(ru),
                        ));
                    },
                }
                seen.push(m.file_id);
            },
            None => {
                match &m.cluster_id {
                    Some(c) => {
                        let ghost before = clusters@.map_values(|p: (String, String)| pair_view(p));
                        let p = (c.clone(), m.file_path.clone());
                        clusters.push(p);
                        assert(clusters@.map_values(|p: (String, String)| pair_view(p)) =~= before.push(
                            pair_view(p),
                        ));
                    },
                    None => {},
                }
                if !contains_id(&skel_seen, m.file_id) {
                    skel_seen.push(m.file_id);
                    let ghost before = skel@.map_values(|i: usize| i as int);
                    skel.push(i);
                    assert(skel@.map_values(|i: usize| i as int) =~= before.push(i as int));
                }
            },
        }
        i += 1;
    }
    assert(matches@.take(matches@.len() as int) =~= matches@);
    RollupPlan { rollups, skeleton_candidates: skel }
}

/// Splits a capsule's token budget into the part reserved for session memory
/// (`memory_budget_pct` percent, rounded down) and the part left for code.
pub fn split_memory_budget(token_budget: usize, memory_budget_pct: usize) -> (r: (usize, usize))
    requires
        memory_budget_pct <= 100,
        token_budget * memory_budget_pct <= usize::MAX,
    ensures
        r.0 == token_budget * memory_budget_pct / 100,
        r.0 + r.1 == token_budget,
{
    let memory = token_budget * memory_budget_pct / 100;
    assert(token_budget * memory_budget_pct / 100 <= token_budget) by (nonlinear_arith)
        requires
            memory_budget_pct <= 100,
    ;
    (memory, token_budget - memory)
}

} // verus!
