//! Rendering a budget allocation as the Markdown context capsule.
use vstd::prelude::*;

use crate::capsule::budget::{
    BridgeExcerpt, BudgetAllocation, ClusterRollup, PivotExcerpt, SkeletonFile, UnallocatedMatch,
};
use crate::indexer::scanner::{extension_of, path_extension};
use crate::text::{
    append_chars, chars_of, chars_order, decimal, dedup, digit_char, eq_chars, flatten, insert_by, join,
    lemma_insert_by_shape, order_chars, push_decimal, sort_by, string_of, string_views, views,
};
use crate::types::Intent;
use vstd::utf8::{decode_utf8, encode_utf8, is_char_boundary};

verus! {

// ---------------------------------------------------------------------------
// Pieces of text
// ---------------------------------------------------------------------------

/// A score in hundredths written with two decimals (`85` as `0.85`).
pub open spec fn fixed2(h: nat) -> Seq<char> {
    decimal(h / 100) + seq!['.', digit_char((h % 100) / 10), digit_char(h % 10)]
}

/// A bridge signature as shown: cut after its first 200 UTF-8 bytes, with an
/// ellipsis, when it is longer.
pub open spec fn shown_signature(sig: Seq<char>) -> Seq<char> {
    if encode_utf8(sig).len() > 200 {
        decode_utf8(encode_utf8(sig).take(200)) + "…"@
    } else {
        sig
    }
}

/// Whether a signature can be cut after 200 bytes: it is not longer, or its
/// 200th byte ends a character.
pub open spec fn cuttable(sig: Seq<char>) -> bool {
    encode_utf8(sig).len() > 200 ==> is_char_boundary(encode_utf8(sig), 200)
}

// ---------------------------------------------------------------------------
// Sections
// ---------------------------------------------------------------------------

pub open spec fn header_text(query: Seq<char>, intent: Intent, a: BudgetAllocation) -> Seq<char> {
    "# Context Capsule\n\n**Query:** "@ + query + "\n**Intent:** "@ + intent.name_view()
        + "\n**Token usage:** ~"@ + decimal(a.total_tokens as nat) + " tokens ("@ + decimal(
        a.pivots@.len(),
    ) + " pivot excerpts, "@ + decimal(a.bridges@.len()) + " bridges, "@ + decimal(
        a.skeletons@.len(),
    ) + " skeleton files)\n\n"@
}

pub open spec fn pivot_location(p: PivotExcerpt) -> Seq<char> {
    if p.is_full_file {
        "`"@ + p.path@ + "`"@
    } else {
        "`"@ + p.path@ + "` (lines "@ + decimal(p.line_start as nat) + "-"@ + decimal(
            p.line_end as nat,
        ) + ")"@
    }
}

pub open spec fn pivot_names(p: PivotExcerpt) -> Seq<char> {
    if p.node_names@.len() == 0 {
        Seq::empty()
    } else {
        " — "@ + join(string_views(p.node_names@), ", "@)
    }
}

pub open spec fn pivot_block(p: PivotExcerpt) -> Seq<char> {
    "### "@ + pivot_location(p) + " ("@ + decimal(p.tokens as nat) + " tokens, relevance: "@
        + fixed2(p.relevance_score as nat) + ")"@ + pivot_names(p) + "\n\n```"@ + extension_of(
        p.path@,
    ) + "\n"@ + p.content@ + "\n```\n\n"@
}

pub open spec fn bridge_line(b: BridgeExcerpt) -> Seq<char> {
    "- `"@ + b.node_name@ + "` in `"@ + b.path@ + "`: `"@ + shown_signature(b.signature@) + "`\n"@
}

pub open spec fn skeleton_block(s: SkeletonFile) -> Seq<char> {
    "### `"@ + s.path@ + "` ("@ + decimal(s.tokens as nat) + " tokens, "@ + s.level.name_view()
        + " skeleton)\n\n```"@ + extension_of(s.path@) + "\n"@ + s.skeleton@ + "\n```\n\n"@
}

pub open spec fn sibling_line(sib: (String, String)) -> Seq<char> {
    "  - `"@ + sib.0@ + "` (node: `"@ + sib.1@ + "`)\n"@
}

pub open spec fn rollup_block(r: ClusterRollup) -> Seq<char> {
    "**Cluster: `"@ + r.cluster_name@ + "`**\n- Detailed above: `"@ + r.representative_file@
        + "`\n- Also matched (similar structure):\n"@ + flatten(
        r.matched_siblings@.map_values(|x: (String, String)| sibling_line(x)),
    ) + "\n"@
}

pub open spec fn unallocated_line(u: UnallocatedMatch) -> Seq<char> {
    "- `"@ + u.path@ + "` (score: "@ + fixed2(u.score as nat) + ")\n"@
}

/// A titled section of blocks, absent when there are no blocks.
pub open spec fn section(title: Seq<char>, blocks: Seq<Seq<char>>, trailer: Seq<char>) -> Seq<char> {
    if blocks.len() == 0 {
        Seq::empty()
    } else {
        title + flatten(blocks) + trailer
    }
}

/// The capsule: the header, then the pivot files, the bridge context, the
/// skeletonized supporting files, the related clusters and the files left
/// out, each section present only when it has entries.
pub open spec fn capsule_text(a: BudgetAllocation, query: Seq<char>, intent: Intent) -> Seq<char> {
    header_text(query, intent, a) + section(
        "---\n\n## Pivot Files\n\n"@,
        a.pivots@.map_values(|p: PivotExcerpt| pivot_block(p)),
        Seq::empty(),
    ) + section(
        "---\n\n## Bridge Context\n\n"@,
        a.bridges@.map_values(|b: BridgeExcerpt| bridge_line(b)),
        "\n"@,
    ) + section(
        "---\n\n## Supporting Files (skeletonized)\n\n"@,
        a.skeletons@.map_values(|s: SkeletonFile| skeleton_block(s)),
        Seq::empty(),
    ) + section(
        "---\n\n## Related Code Clusters\n\n"@,
        a.rollups@.map_values(|r: ClusterRollup| rollup_block(r)),
        Seq::empty(),
    ) + section(
        truncated_title(),
        a.unallocated_matches@.map_values(|u: UnallocatedMatch| unallocated_line(u)),
        Seq::empty(),
    )
}

// ---------------------------------------------------------------------------
// Rendering
// ---------------------------------------------------------------------------

fn push_str(out: &mut Vec<char>, s: &str)
    ensures
        final(out)@ == old(out)@ + s@,
{
    let v = chars_of(s);
    append_chars(out, &v);
}

fn push_fixed2(out: &mut Vec<char>, h: u64)
    ensures
        final(out)@ == old(out)@ + fixed2(h as nat),
{
    push_decimal(out, h / 100);
    out.push('.');
    let r = h % 100;
    push_decimal(out, r / 10);
    push_decimal(out, r % 10);
    assert(decimal((r / 10) as nat) == seq![digit_char((r / 10) as nat)]);
    assert(decimal((r % 10) as nat) == seq![digit_char((r % 10) as nat)]);
    assert(final(out)@ =~= old(out)@ + fixed2(h as nat));
}

fn push_extension(out: &mut Vec<char>, path: &str)
    ensures
        final(out)@ == old(out)@ + extension_of(path@),
{
    match path_extension(path) {
        Some(e) => push_str(out, e.as_str()),
        None => {},
    }
}

proof fn lemma_decode_encode(s: Seq<char>)
    ensures
        decode_utf8(encode_utf8(s)) == s,
{
    vstd::utf8::encode_utf8_decode_utf8(s);
}

fn push_signature(out: &mut Vec<char>, sig: &String)
    requires
        cuttable(sig@),
    ensures
        final(out)@ == old(out)@ + shown_signature(sig@),
{
    let s = sig.as_str();
    assert(s@ == sig@);
    let n = s.as_bytes().len();
    if n > 200 {
        assert(encode_utf8(sig@).len() > 200);
        let (head, _) = s.split_at(200);
        proof {
            lemma_decode_encode(head@);
            assert(encode_utf8(head@) =~= encode_utf8(sig@).take(200));
            assert(decode_utf8(encode_utf8(sig@).take(200)) == head@);
        }
        push_str(out, head);
        push_str(out, "…");
        assert(shown_signature(sig@) == head@ + "…"@);
    } else {
        assert(shown_signature(sig@) == sig@);
        push_str(out, s);
    }
}

fn push_location(out: &mut Vec<char>, p: &PivotExcerpt)
    ensures
        final(out)@ == old(out)@ + pivot_location(*p),
{
    push_str(out, "`");
    push_str(out, p.path.as_str());
    if p.is_full_file {
        push_str(out, "`");
    } else {
        push_str(out, "` (lines ");
        push_decimal(out, p.line_start as u64);
        push_str(out, "-");
        push_decimal(out, p.line_end as u64);
        push_str(out, ")");
    }
    assert(out@ =~= old(out)@ + pivot_location(*p));
}

fn push_names(out: &mut Vec<char>, p: &PivotExcerpt)
    ensures
        final(out)@ == old(out)@ + pivot_names(*p),
{
    if p.node_names.len() > 0 {
        push_str(out, " — ");
        let ghost base = out@;
        let ghost names = string_views(p.node_names@);
        let mut i: usize = 0;
        while i < p.node_names.len()
            invariant
                i <= p.node_names@.len(),
                names == string_views(p.node_names@),
                out@ == base + join(names.take(i as int), ", "@),
            decreases p.node_names.len() - i,
        {
            let ghost b = out@;
            if i > 0 {
                push_str(out, ", ");
            }
            push_str(out, p.node_names[i].as_str());
            assert(names.take(i as int + 1).drop_last() =~= names.take(i as int));
            assert(names[i as int] == p.node_names@[i as int]@);
            assert(names.take(i as int + 1).last() == names[i as int]);
            if i == 0 {
                assert(out@ =~= base + join(names.take(i as int + 1), ", "@));
            } else {
                assert(out@ =~= base + join(names.take(i as int + 1), ", "@));
            }
            i += 1;
        }
        assert(names.take(names.len() as int) =~= names);
        assert(out@ =~= old(out)@ + pivot_names(*p));
    }
}

fn push_pivot(out: &mut Vec<char>, p: &PivotExcerpt)
    ensures
        final(out)@ == old(out)@ + pivot_block(*p),
{
    push_str(out, "### ");
    push_location(out, p);
    push_str(out, " (");
    push_decimal(out, p.tokens as u64);
    push_str(out, " tokens, relevance: ");
    push_fixed2(out, p.relevance_score);
    push_str(out, ")");
    push_names(out, p);
    push_str(out, "\n\n```");
    push_extension(out, p.path.as_str());
    push_str(out, "\n");
    push_str(out, p.content.as_str());
    push_str(out, "\n```\n\n");
    assert(out@ =~= old(out)@ + pivot_block(*p));
}

fn push_bridge(out: &mut Vec<char>, b: &BridgeExcerpt)
    requires
        cuttable(b.signature@),
    ensures
        final(out)@ == old(out)@ + bridge_line(*b),
{
    push_str(out, "- `");
    push_str(out, b.node_name.as_str());
    push_str(out, "` in `");
    push_str(out, b.path.as_str());
    push_str(out, "`: `");
    push_signature(out, &b.signature);
    push_str(out, "`\n");
    assert(out@ =~= old(out)@ + bridge_line(*b));
}

fn push_skeleton(out: &mut Vec<char>, s: &SkeletonFile)
    ensures
        final(out)@ == old(out)@ + skeleton_block(*s),
{
    push_str(out, "### `");
    push_str(out, s.path.as_str());
    push_str(out, "` (");
    push_decimal(out, s.tokens as u64);
    push_str(out, " tokens, ");
    push_str(out, s.level.as_str());
    push_str(out, " skeleton)\n\n```");
    push_extension(out, s.path.as_str());
    push_str(out, "\n");
    push_str(out, s.skeleton.as_str());
    push_str(out, "\n```\n\n");
    assert(out@ =~= old(out)@ + skeleton_block(*s));
}

fn push_rollup(out: &mut Vec<char>, r: &ClusterRollup)
    ensures
        final(out)@ == old(out)@ + rollup_block(*r),
{
    push_str(out, "**Cluster: `");
    push_str(out, r.cluster_name.as_str());
    push_str(out, "`**\n- Detailed above: `");
    push_str(out, r.representative_file.as_str());
    push_str(out, "`\n- Also matched (similar structure):\n");
    let ghost base = out@;
    let ghost lines = r.matched_siblings@.map_values(|x: (String, String)| sibling_line(x));
    let mut i: usize = 0;
    while i < r.matched_siblings.len()
        invariant
            i <= r.matched_siblings@.len(),
            lines == r.matched_siblings@.map_values(|x: (String, String)| sibling_line(x)),
            out@ == base + flatten(lines.take(i as int)),
        decreases r.matched_siblings.len() - i,
    {
        let sib = &r.matched_siblings[i];
        let ghost b = out@;
        push_str(out, "  - `");
        push_str(out, sib.0.as_str());
        push_str(out, "` (node: `");
        push_str(out, sib.1.as_str());
        push_str(out, "`)\n");
        assert(out@ =~= b + sibling_line(*sib));
        assert(lines.take(i as int + 1).drop_last() =~= lines.take(i as int));
        i += 1;
    }
    assert(lines.take(lines.len() as int) =~= lines);
    push_str(out, "\n");
    assert(out@ =~= old(out)@ + rollup_block(*r));
}

fn push_unallocated(out: &mut Vec<char>, u: &UnallocatedMatch)
    ensures
        final(out)@ == old(out)@ + unallocated_line(*u),
{
    push_str(out, "- `");
    push_str(out, u.path.as_str());
    push_str(out, "` (score: ");
    push_fixed2(out, u.score);
    push_str(out, ")\n");
    assert(out@ =~= old(out)@ + unallocated_line(*u));
}

fn push_header(out: &mut Vec<char>, allocation: &BudgetAllocation, query: &str, intent: Intent)
    ensures
        final(out)@ == old(out)@ + header_text(query@, intent, *allocation),
{
    push_str(out, "# Context Capsule\n\n**Query:** ");
    push_str(out, query);
    push_str(out, "\n**Intent:** ");
    push_str(out, intent.as_str());
    push_str(out, "\n**Token usage:** ~");
    push_decimal(out, allocation.total_tokens as u64);
    push_str(out, " tokens (");
    push_decimal(out, allocation.pivots.len() as u64);
    push_str(out, " pivot excerpts, ");
    push_decimal(out, allocation.bridges.len() as u64);
    push_str(out, " bridges, ");
    push_decimal(out, allocation.skeletons.len() as u64);
    push_str(out, " skeleton files)\n\n");
    assert(out@ =~= old(out)@ + header_text(query@, intent, *allocation));
}

fn push_pivots(out: &mut Vec<char>, pivots: &Vec<PivotExcerpt>)
    ensures
        final(out)@ == old(out)@ + section(
            "---\n\n## Pivot Files\n\n"@,
            pivots@.map_values(|p: PivotExcerpt| pivot_block(p)),
            Seq::empty(),
        ),
{
    let ghost pb = pivots@.map_values(|p: PivotExcerpt| pivot_block(p));
    if pivots.len() > 0 {
        push_str(out, "---\n\n## Pivot Files\n\n");
        let ghost base = out@;
        let mut i: usize = 0;
        while i < pivots.len()
            invariant
                i <= pivots@.len(),
                pb == pivots@.map_values(|p: PivotExcerpt| pivot_block(p)),
                out@ == base + flatten(pb.take(i as int)),
            decreases pivots.len() - i,
        {
            push_pivot(out, &pivots[i]);
            assert(pb.take(i as int + 1).drop_last() =~= pb.take(i as int));
            i += 1;
        }
        assert(pb.take(pb.len() as int) =~= pb);
    }
    assert(out@ =~= old(out)@ + section("---\n\n## Pivot Files\n\n"@, pb, Seq::empty()));
}

fn push_bridges(out: &mut Vec<char>, bridges: &Vec<BridgeExcerpt>)
    requires
        forall|i: int| 0 <= i < bridges@.len() ==> cuttable(#[trigger] bridges@[i].signature@),
    ensures
        final(out)@ == old(out)@ + section(
            "---\n\n## Bridge Context\n\n"@,
            bridges@.map_values(|b: BridgeExcerpt| bridge_line(b)),
            "\n"@,
        ),
{
    let ghost bl = bridges@.map_values(|b: BridgeExcerpt| bridge_line(b));
    if bridges.len() > 0 {
        push_str(out, "---\n\n## Bridge Context\n\n");
        let ghost base = out@;
        let mut i: usize = 0;
        while i < bridges.len()
            invariant
                i <= bridges@.len(),
                bl == bridges@.map_values(|b: BridgeExcerpt| bridge_line(b)),
                forall|j: int| 0 <= j < bridges@.len() ==> cuttable(#[trigger] bridges@[j].signature@),
                out@ == base + flatten(bl.take(i as int)),
            decreases bridges.len() - i,
        {
            assert(cuttable(bridges@[i as int].signature@));
            push_bridge(out, &bridges[i]);
            assert(bl.take(i as int + 1).drop_last() =~= bl.take(i as int));
            i += 1;
        }
        assert(bl.take(bl.len() as int) =~= bl);
        push_str(out, "\n");
    }
    assert(out@ =~= old(out)@ + section("---\n\n## Bridge Context\n\n"@, bl, "\n"@));
}

fn push_skeletons(out: &mut Vec<char>, skeletons: &Vec<SkeletonFile>)
    ensures
        final(out)@ == old(out)@ + section(
            "---\n\n## Supporting Files (skeletonized)\n\n"@,
            skeletons@.map_values(|s: SkeletonFile| skeleton_block(s)),
            Seq::empty(),
        ),
{
    let ghost sb = skeletons@.map_values(|s: SkeletonFile| skeleton_block(s));
    if skeletons.len() > 0 {
        push_str(out, "---\n\n## Supporting Files (skeletonized)\n\n");
        let ghost base = out@;
        let mut i: usize = 0;
        while i < skeletons.len()
            invariant
                i <= skeletons@.len(),
                sb == skeletons@.map_values(|s: SkeletonFile| skeleton_block(s)),
                out@ == base + flatten(sb.take(i as int)),
            decreases skeletons.len() - i,
        {
            push_skeleton(out, &skeletons[i]);
            assert(sb.take(i as int + 1).drop_last() =~= sb.take(i as int));
            i += 1;
        }
        assert(sb.take(sb.len() as int) =~= sb);
    }
    assert(out@ =~= old(out)@ + section("---\n\n## Supporting Files (skeletonized)\n\n"@, sb, Seq::empty()));
}

fn push_rollups(out: &mut Vec<char>, rollups: &Vec<ClusterRollup>)
    ensures
        final(out)@ == old(out)@ + section(
            "---\n\n## Related Code Clusters\n\n"@,
            rollups@.map_values(|r: ClusterRollup| rollup_block(r)),
            Seq::empty(),
        ),
{
    let ghost rb = rollups@.map_values(|r: ClusterRollup| rollup_block(r));
    if rollups.len() > 0 {
        push_str(out, "---\n\n## Related Code Clusters\n\n");
        let ghost base = out@;
        let mut i: usize = 0;
        while i < rollups.len()
            invariant
                i <= rollups@.len(),
                rb == rollups@.map_values(|r: ClusterRollup| rollup_block(r)),
                out@ == base + flatten(rb.take(i as int)),
            decreases rollups.len() - i,
        {
            push_rollup(out, &rollups[i]);
            assert(rb.take(i as int + 1).drop_last() =~= rb.take(i as int));
            i += 1;
        }
        assert(rb.take(rb.len() as int) =~= rb);
    }
    assert(out@ =~= old(out)@ + section("---\n\n## Related Code Clusters\n\n"@, rb, Seq::empty()));
}

/// The title of the section that lists the files left out.
pub open spec fn truncated_title() -> Seq<char> {
    "---\n\n## ⚠️ Context Truncated\n\nThe following files matched the query but were omitted to stay within the token budget. Use specific `read_file` or narrower search queries to inspect them:\n\n"@
}

fn push_unallocated_all(out: &mut Vec<char>, matches: &Vec<UnallocatedMatch>)
    ensures
        final(out)@ == old(out)@ + section(
            truncated_title(),
            matches@.map_values(|u: UnallocatedMatch| unallocated_line(u)),
            Seq::empty(),
        ),
{
    let ghost ub = matches@.map_values(|u: UnallocatedMatch| unallocated_line(u));
    if matches.len() > 0 {
        push_str(
            out,
            "---\n\n## ⚠️ Context Truncated\n\nThe following files matched the query but were omitted to stay within the token budget. Use specific `read_file` or narrower search queries to inspect them:\n\n",
        );
        let ghost base = out@;
        let mut i: usize = 0;
        while i < matches.len()
            invariant
                i <= matches@.len(),
                ub == matches@.map_values(|u: UnallocatedMatch| unallocated_line(u)),
                out@ == base + flatten(ub.take(i as int)),
            decreases matches.len() - i,
        {
            push_unallocated(out, &matches[i]);
            assert(ub.take(i as int + 1).drop_last() =~= ub.take(i as int));
            i += 1;
        }
        assert(ub.take(ub.len() as int) =~= ub);
    }
    assert(out@ =~= old(out)@ + section(truncated_title(), ub, Seq::empty()));
}

/// Renders the allocation as the Markdown capsule for the query: a header
/// with the query, the intent and the token usage, followed by the pivot
/// excerpts (in fenced blocks tagged with the file extension), the bridge
/// signatures (cut after 200 bytes), the skeletons, the cluster rollups and
/// the files left out, each section only when it has entries.
pub fn assemble_capsule(allocation: &BudgetAllocation, query: &str, intent: Intent) -> (r: String)
    requires
        forall|i: int| 0 <= i < allocation.bridges@.len() ==> cuttable(#[trigger] allocation.bridges@[i].signature@),
    ensures
        r@ == capsule_text(*allocation, query@, intent),
{
    let mut out: Vec<char> = Vec::new();
    push_header(&mut out, allocation, query, intent);
    push_pivots(&mut out, &allocation.pivots);
    push_bridges(&mut out, &allocation.bridges);
    push_skeletons(&mut out, &allocation.skeletons);
    push_rollups(&mut out, &allocation.rollups);
    push_unallocated_all(&mut out, &allocation.unallocated_matches);
    assert(out@ =~= capsule_text(*allocation, query@, intent));
    string_of(&out)
}

// ---------------------------------------------------------------------------
// Results from other workspaces
// ---------------------------------------------------------------------------

/// A search hit in another workspace: (workspace, shown name (qualified
/// name, else name), kind, score in hundredths).
pub type ExternalHit = (String, String, String, u32);

/// Names in code point order.
pub open spec fn chars_le() -> spec_fn(Seq<char>, Seq<char>) -> bool {
    |a: Seq<char>, b: Seq<char>| chars_order(a, b) <= 0
}

/// The workspaces of the hits, each once, in order of name.
pub open spec fn hit_workspaces(hs: Seq<ExternalHit>) -> Seq<Seq<char>> {
    sort_by(dedup(hs.map_values(|h: ExternalHit| h.0@)), chars_le())
}

/// `- `workspace/name` (kind) — score: 0.85`
pub open spec fn hit_line(h: ExternalHit) -> Seq<char> {
    "- `"@ + h.0@ + "/"@ + h.1@ + "` ("@ + h.2@ + ") — score: "@ + fixed2(h.3 as nat) + "\n"@
}

/// The lines of the hits in workspace `ws`, in order.
pub open spec fn hit_lines(hs: Seq<ExternalHit>, ws: Seq<char>) -> Seq<Seq<char>>
    decreases hs.len(),
{
    if hs.len() == 0 {
        seq![]
    } else if hs.last().0@ == ws {
        hit_lines(hs.drop_last(), ws).push(hit_line(hs.last()))
    } else {
        hit_lines(hs.drop_last(), ws)
    }
}

pub open spec fn workspace_block(hs: Seq<ExternalHit>, ws: Seq<char>) -> Seq<char> {
    "### External: "@ + ws + "\n\n"@ + flatten(hit_lines(hs, ws)) + "\n"@
}

/// The section listing the hits in other workspaces, grouped by workspace in
/// order of name; nothing when there are none.
pub open spec fn external_section(hs: Seq<ExternalHit>) -> Seq<char> {
    if hs.len() == 0 {
        seq![]
    } else {
        "\n---\n\n## External References\n\n"@ + flatten(
            hit_workspaces(hs).map_values(|ws: Seq<char>| workspace_block(hs, ws)),
        )
    }
}

fn contains_chars(v: &Vec<Vec<char>>, x: &Vec<char>) -> (r: bool)
    ensures
        r == views(v@).contains(x@),
{
    let mut j: usize = 0;
    while j < v.len()
        invariant
            j <= v@.len(),
            forall|k: int| 0 <= k < j ==> views(v@)[k] != x@,
        decreases v.len() - j,
    {
        if eq_chars(&v[j], x) {
            assert(views(v@)[j as int] == x@);
            return true;
        }
        j += 1;
    }
    false
}

/// The workspaces of the hits, as [`hit_workspaces`] says.
fn workspaces_of(hs: &[ExternalHit]) -> (r: Vec<Vec<char>>)
    ensures
        views(r@) == hit_workspaces(hs@),
{
    let ghost all = hs@.map_values(|h: ExternalHit| h.0@);
    let mut uniq: Vec<Vec<char>> = Vec::new();
    let mut i: usize = 0;
    assert(views(uniq@) =~= dedup(all.take(0)));
    while i < hs.len()
        invariant
            i <= hs@.len(),
            all == hs@.map_values(|h: ExternalHit| h.0@),
            views(uniq@) == dedup(all.take(i as int)),
        decreases hs.len() - i,
    {
        let w = chars_of(hs[i].0.as_str());
        assert(all.take(i as int + 1).drop_last() =~= all.take(i as int));
        assert(all.take(i as int + 1).last() == w@);
        if !contains_chars(&uniq, &w) {
            let ghost before = views(uniq@);
            uniq.push(w);
            assert(views(uniq@) =~= before.push(all[i as int]));
        }
        i += 1;
    }
    assert(all.take(hs@.len() as int) =~= all);
    let ghost d = views(uniq@);
    let mut sorted: Vec<Vec<char>> = Vec::new();
    let mut k: usize = 0;
    assert(views(sorted@) =~= sort_by(d.take(0), chars_le()));
    while k < uniq.len()
        invariant
            k <= uniq@.len(),
            d == views(uniq@),
            views(sorted@) == sort_by(d.take(k as int), chars_le()),
        decreases uniq.len() - k,
    {
        let x = uniq[k].clone();
        assert(x@ == d[k as int]);
        assert(d.take(k as int + 1).drop_last() =~= d.take(k as int));
        let ghost s = views(sorted@);
        let mut m: usize = sorted.len();
        while m > 0 && order_chars(&sorted[m - 1], &x) > 0
            invariant
                m <= sorted@.len(),
                s == views(sorted@),
                forall|t: int| m <= t < sorted@.len() ==> !(chars_le())(#[trigger] s[t], x@),
            decreases m,
        {
            m -= 1;
        }
        proof {
            lemma_insert_by_shape(s, x@, chars_le(), m as int);
        }
        let ghost xv = x@;
        sorted.insert(m, x);
        assert(views(sorted@) =~= s.take(m as int) + seq![xv] + s.skip(m as int));
        k += 1;
    }
    assert(d.take(uniq@.len() as int) =~= d);
    sorted
}

/// Renders the hits in other workspaces as [`external_section`] says.
pub fn external_references(hits: &[ExternalHit]) -> (r: String)
    ensures
        r@ == external_section(hits@),
{
    let mut out: Vec<char> = Vec::new();
    if hits.len() == 0 {
        return string_of(&out);
    }
    push_str(&mut out, "\n---\n\n## External References\n\n");
    let wss = workspaces_of(hits);
    let ghost blocks = hit_workspaces(hits@).map_values(|ws: Seq<char>| workspace_block(hits@, ws));
    let ghost head = out@;
    let mut i: usize = 0;
    while i < wss.len()
        invariant
            i <= wss@.len(),
            views(wss@) == hit_workspaces(hits@),
            blocks == hit_workspaces(hits@).map_values(|ws: Seq<char>| workspace_block(hits@, ws)),
            out@ == head + flatten(blocks.take(i as int)),
        decreases wss.len() - i,
    {
        let ghost before = out@;
        let ws = &wss[i];
        assert(ws@ == hit_workspaces(hits@)[i as int]);
        push_str(&mut out, "### External: ");
        append_chars(&mut out, ws);
        push_str(&mut out, "\n\n");
        let ghost mid = out@;
        let mut j: usize = 0;
        while j < hits.len()
            invariant
                j <= hits@.len(),
                out@ == mid + flatten(hit_lines(hits@.take(j as int), ws@)),
            decreases hits.len() - j,
        {
            let h = &hits[j];
            assert(hits@.take(j as int + 1).drop_last() =~= hits@.take(j as int));
            assert(hits@.take(j as int + 1).last() == *h);
            let hw = chars_of(h.0.as_str());
            if eq_chars(&hw, ws) {
                let ghost b2 = out@;
                push_str(&mut out, "- `");
                append_chars(&mut out, &hw);
                push_str(&mut out, "/");
                push_str(&mut out, h.1.as_str());
                push_str(&mut out, "` (");
                push_str(&mut out, h.2.as_str());
                push_str(&mut out, ") — score: ");
                push_fixed2(&mut out, h.3 as u64);
                push_str(&mut out, "\n");
                assert(out@ =~= b2 + hit_line(*h));
                assert(hit_lines(hits@.take(j as int), ws@).push(hit_line(*h)).drop_last() =~= hit_lines(
                    hits@.take(j as int),
                    ws@,
                ));
                assert(flatten(hit_lines(hits@.take(j as int), ws@).push(hit_line(*h))) =~= flatten(
                    hit_lines(hits@.take(j as int), ws@),
                ) + hit_line(*h));
            }
            j += 1;
        }
        assert(hits@.take(hits@.len() as int) =~= hits@);
        push_str(&mut out, "\n");
        assert(out@ =~= before + workspace_block(hits@, ws@));
        assert(blocks.take(i as int + 1).drop_last() =~= blocks.take(i as int));
        i += 1;
    }
    assert(blocks.take(wss@.len() as int) =~= blocks);
    string_of(&out)
}

/// The intent a capsule request names, or the message refusing a name that
/// is none of `debug`, `blast_radius`, `modify` and `explore`.
pub fn intent_for_override(name: &str) -> (r: Result<Intent, String>)
    ensures
        match r {
            Ok(i) => i.name_view() == name@,
            Err(m) => (forall|i: Intent| i.name_view() != name@) && m@ == "Invalid intent override '"@ + name@
                + "'. Valid values: debug, blast_radius, modify, explore"@,
        },
{
    match Intent::parse(name) {
        Some(i) => Ok(i),
        None => {
            let mut out: Vec<char> = Vec::new();
            push_str(&mut out, "Invalid intent override '");
            push_str(&mut out, name);
            push_str(&mut out, "'. Valid values: debug, blast_radius, modify, explore");
            Err(string_of(&out))
        },
    }
}

} // verus!
