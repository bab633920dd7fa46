//! Building the symbol graph from the stored symbols and relationships, and
//! replacing the symbols of changed files in it.
use vstd::prelude::*;

use std::collections::HashMap;
use vstd::multiset::Multiset;

use petgraph::graph::{Graph, NodeIndex};

use crate::db::records::NodeRecord;
use crate::graph::traversal::{graph_edges, graph_nodes, node_at, node_count_of, CodeGraph};
use crate::graph::{GraphEdge, GraphNode};
use crate::text::{chars_of, eq_chars, string_of};
use crate::types::{lemma_edge_kind_name_injective, lemma_node_kind_name_injective, EdgeKind, NodeKind};

verus! {

/// `Graph::new`: a graph with no symbols and no relationships.
#[verifier::external_body]
pub(crate) fn empty_graph() -> (g: CodeGraph)
    ensures
        graph_nodes(g) == Seq::<GraphNode>::empty(),
        graph_edges(g) == Seq::<(nat, nat, EdgeKind)>::empty(),
{
    Graph::new()
}

/// `Graph::add_node`: the symbol is appended and its index returned; the
/// relationships are unchanged. Panics when the index type is exhausted,
/// which the `requires` rules out.
#[verifier::external_body]
pub(crate) fn add_graph_node(g: &mut CodeGraph, w: GraphNode) -> (r: usize)
    requires
        graph_nodes(*old(g)).len() < u32::MAX,
    ensures
        graph_nodes(*final(g)) == graph_nodes(*old(g)).push(w),
        graph_edges(*final(g)) == graph_edges(*old(g)),
        r == graph_nodes(*old(g)).len(),
{
    g.add_node(w).index()
}

/// `Graph::add_edge`: the relationship from `a` to `b` is appended; the
/// symbols are unchanged. Panics when an end is not a symbol or the index
/// type is exhausted, which the `requires` rules out.
#[verifier::external_body]
pub(crate) fn add_graph_edge(g: &mut CodeGraph, a: usize, b: usize, w: GraphEdge)
    requires
        a < graph_nodes(*old(g)).len(),
        b < graph_nodes(*old(g)).len(),
        graph_edges(*old(g)).len() < u32::MAX,
    ensures
        graph_edges(*final(g)) == graph_edges(*old(g)).push((a as nat, b as nat, w.kind)),
        graph_nodes(*final(g)) == graph_nodes(*old(g)),
{
    g.add_edge(NodeIndex::new(a), NodeIndex::new(b), w);
}

/// A graph symbol as plain values: (id, name, qualified name, kind, file id).
pub type NodeView = (i64, Seq<char>, Option<Seq<char>>, NodeKind, i64);

pub open spec fn graph_node_view(n: GraphNode) -> NodeView {
    (
        n.db_id,
        n.name@,
        match n.qualified_name {
            Some(q) => Some(q@),
            None => None,
        },
        n.kind,
        n.file_id,
    )
}

/// The symbols of a graph as plain values.
pub open spec fn node_views(g: CodeGraph) -> Seq<NodeView> {
    graph_nodes(g).map_values(|n: GraphNode| graph_node_view(n))
}

/// The kind a stored kind name stands for, `default` when it names none.
pub open spec fn node_kind_or(s: Seq<char>, default: NodeKind) -> NodeKind {
    if exists|k: NodeKind| k.name_view() == s {
        choose|k: NodeKind| k.name_view() == s
    } else {
        default
    }
}

pub open spec fn edge_kind_or(s: Seq<char>, default: EdgeKind) -> EdgeKind {
    if exists|k: EdgeKind| k.name_view() == s {
        choose|k: EdgeKind| k.name_view() == s
    } else {
        default
    }
}

/// The graph symbol for a stored symbol: an unknown kind becomes `external`.
pub open spec fn record_view(r: NodeRecord) -> NodeView {
    (
        r.id,
        r.name@,
        match r.qualified_name {
            Some(q) => Some(q@),
            None => None,
        },
        node_kind_or(r.kind@, NodeKind::External),
        r.file_id,
    )
}

/// The graph symbol for a stored symbol, as [`record_view`] says.
pub fn graph_node(node: &NodeRecord) -> (r: GraphNode)
    ensures
        graph_node_view(r) == record_view(*node),
{
    let kind = match NodeKind::parse(node.kind.as_str()) {
        Some(k) => k,
        None => NodeKind::External,
    };
    proof {
        if exists|k: NodeKind| k.name_view() == node.kind@ {
            let c = choose|k: NodeKind| k.name_view() == node.kind@;
            lemma_node_kind_name_injective(c, kind);
        }
    }
    GraphNode {
        db_id: node.id,
        name: node.name.clone(),
        qualified_name: node.qualified_name.clone(),
        kind,
        file_id: node.file_id,
    }
}

/// What follows the last `::` of a qualified name (all of it when there is
/// none).
pub open spec fn last_segment(s: Seq<char>) -> Seq<char>
    decreases s.len(),
{
    if s.len() < 2 {
        s
    } else if s[s.len() - 2] == ':' && s[s.len() - 1] == ':' {
        seq![]
    } else {
        last_segment(s.drop_last()).push(s.last())
    }
}

/// What follows the last `::` of a qualified name, as [`last_segment`] says.
pub fn last_segment_of(s: &str) -> (r: String)
    ensures
        r@ == last_segment(s@),
{
    let c = chars_of(s);
    let mut j: usize = c.len();
    assert(c@.take(j as int) =~= c@);
    assert(c@.skip(j as int) =~= Seq::<char>::empty());
    while j >= 2 && !(c[j - 2] == ':' && c[j - 1] == ':')
        invariant
            j <= c@.len(),
            last_segment(c@) == last_segment(c@.take(j as int)) + c@.skip(j as int),
        decreases j,
    {
        let ghost t = c@.take(j as int);
        assert(t.drop_last() =~= c@.take(j - 1));
        assert(c@.skip(j - 1) =~= seq![c@[j - 1]] + c@.skip(j as int));
        assert(last_segment(t) == last_segment(c@.take(j - 1)).push(c@[j - 1]));
        assert(last_segment(c@.take(j - 1)).push(c@[j - 1]) + c@.skip(j as int) =~= last_segment(
            c@.take(j - 1),
        ) + c@.skip(j - 1));
        j -= 1;
    }
    let mut out: Vec<char> = Vec::new();
    let start: usize = if j < 2 {
        0
    } else {
        j
    };
    proof {
        if j < 2 {
            assert(c@.take(j as int) + c@.skip(j as int) =~= c@.skip(0));
        } else {
            assert(seq![] + c@.skip(j as int) =~= c@.skip(j as int));
        }
    }
    let mut i: usize = start;
    while i < c.len()
        invariant
            start <= i <= c@.len(),
            out@ == c@.subrange(start as int, i as int),
        decreases c@.len() - i,
    {
        out.push(c[i]);
        i += 1;
        assert(out@ =~= c@.subrange(start as int, i as int));
    }
    assert(c@.subrange(start as int, c@.len() as int) =~= c@.skip(start as int));
    string_of(&out)
}

/// The state of a graph build: its symbols, its relationships, and the map
/// from symbol ids to node indices.
pub type BuildView = (Seq<NodeView>, Seq<(nat, nat, EdgeKind)>, Map<i64, usize>);

/// The stored symbols added in order; a later symbol with an id already
/// mapped takes the id over.
pub open spec fn add_records(rs: Seq<NodeRecord>, st: BuildView) -> BuildView
    decreases rs.len(),
{
    if rs.len() == 0 {
        st
    } else {
        let s = add_records(rs.drop_last(), st);
        (s.0.push(record_view(rs.last())), s.1, s.2.insert(rs.last().id, s.0.len() as usize))
    }
}

/// A stored relationship: (source id, target id, kind name, confidence in
/// hundredths).
pub type EdgeRowView = (i64, i64, Seq<char>, u32);

/// The stored relationships whose two ends are mapped, added in order; an
/// unknown kind becomes `calls`.
pub open spec fn add_edge_rows(es: Seq<EdgeRowView>, st: BuildView) -> BuildView
    decreases es.len(),
{
    if es.len() == 0 {
        st
    } else {
        let s = add_edge_rows(es.drop_last(), st);
        let e = es.last();
        if s.2.contains_key(e.0) && s.2.contains_key(e.1) {
            (s.0, s.1.push((s.2[e.0] as nat, s.2[e.1] as nat, edge_kind_or(e.2, EdgeKind::Calls))), s.2)
        } else {
            s
        }
    }
}

/// A relationship to a symbol of another workspace: (source id, workspace,
/// qualified name, kind name, confidence in hundredths).
pub type CrossRowView = (i64, Seq<char>, Seq<char>, Seq<char>, u32);

/// The node standing for a symbol of another workspace.
pub open spec fn external_view(id: int, qualified: Seq<char>) -> NodeView {
    (id as i64, last_segment(qualified), Some(qualified), NodeKind::External, -1i64)
}

/// The node made for a (workspace, qualified name) pair, if any.
pub open spec fn synthetic_for(syn: Seq<(Seq<char>, Seq<char>, nat)>, ws: Seq<char>, q: Seq<char>) -> Option<nat>
    decreases syn.len(),
{
    if syn.len() == 0 {
        None
    } else if syn.last().0 == ws && syn.last().1 == q {
        Some(syn.last().2)
    } else {
        synthetic_for(syn.drop_last(), ws, q)
    }
}

/// A build extended by the nodes made for other workspaces' symbols and the
/// next (negative) id to give one.
pub type CrossState = (BuildView, Seq<(Seq<char>, Seq<char>, nat)>, int);

/// The cross-workspace relationships whose source is mapped, in order: the
/// first one to a (workspace, qualified name) pair makes an external node for
/// it, under the next negative id, named after the last segment of the
/// qualified name; each adds a relationship to that node.
pub open spec fn add_cross_rows(rows: Seq<CrossRowView>, cs: CrossState) -> CrossState
    decreases rows.len(),
{
    if rows.len() == 0 {
        cs
    } else {
        let c = add_cross_rows(rows.drop_last(), cs);
        let r = rows.last();
        let b = c.0;
        if !b.2.contains_key(r.0) {
            c
        } else {
            let src = b.2[r.0] as nat;
            let kind = edge_kind_or(r.3, EdgeKind::Calls);
            match synthetic_for(c.1, r.1, r.2) {
                Some(t) => ((b.0, b.1.push((src, t, kind)), b.2), c.1, c.2),
                None => {
                    let t = b.0.len();
                    (
                        (b.0.push(external_view(c.2, r.2)), b.1.push((src, t, kind)), b.2.insert(c.2 as i64, t as usize)),
                        c.1.push((r.1, r.2, t)),
                        c.2 - 1,
                    )
                },
            }
        }
    }
}

pub open spec fn edge_row_view(e: (i64, i64, String, u32)) -> EdgeRowView {
    (e.0, e.1, e.2@, e.3)
}

pub open spec fn cross_row_view(r: (i64, String, String, String, u32)) -> CrossRowView {
    (r.0, r.1@, r.2@, r.3@, r.4)
}

/// The graph built from stored symbols, stored relationships and
/// cross-workspace relationships, with its id map.
pub open spec fn built(
    nodes: Seq<NodeRecord>,
    edges: Seq<(i64, i64, String, u32)>,
    cross: Seq<(i64, String, String, String, u32)>,
) -> BuildView {
    let b1 = add_records(nodes, (seq![], seq![], Map::empty()));
    let b2 = add_edge_rows(edges.map_values(|e: (i64, i64, String, u32)| edge_row_view(e)), b1);
    add_cross_rows(cross.map_values(|r: (i64, String, String, String, u32)| cross_row_view(r)), (b2, seq![], -1)).0
}

/// The relationship kind named `s`, `calls` when it names none.
pub fn edge_kind_or_calls(s: &str) -> (r: EdgeKind)
    ensures
        r == edge_kind_or(s@, EdgeKind::Calls),
{
    let k = match EdgeKind::parse(s) {
        Some(k) => k,
        None => EdgeKind::Calls,
    };
    proof {
        if exists|x: EdgeKind| x.name_view() == s@ {
            let c = choose|x: EdgeKind| x.name_view() == s@;
            lemma_edge_kind_name_injective(c, k);
        }
    }
    k
}

/// Every mapped index is a node of the graph.
pub open spec fn ids_within(ids: Map<i64, usize>, n: nat) -> bool {
    forall|k: i64| ids.contains_key(k) ==> (#[trigger] ids[k]) < n
}

/// Adds the stored symbols to a graph and its id map.
fn add_node_records(g: &mut CodeGraph, ids: &mut HashMap<i64, usize>, nodes: &[NodeRecord])
    requires
        graph_nodes(*old(g)).len() + nodes@.len() < u32::MAX,
        ids_within(old(ids)@, graph_nodes(*old(g)).len()),
    ensures
        (node_views(*final(g)), graph_edges(*final(g)), final(ids)@) == add_records(
            nodes@,
            (node_views(*old(g)), graph_edges(*old(g)), old(ids)@),
        ),
        graph_nodes(*final(g)).len() == graph_nodes(*old(g)).len() + nodes@.len(),
        graph_edges(*final(g)) == graph_edges(*old(g)),
        ids_within(final(ids)@, graph_nodes(*final(g)).len()),
{
    broadcast use vstd::std_specs::hash::group_hash_axioms;
    let ghost st0 = (node_views(*g), graph_edges(*g), ids@);
    let ghost n0 = graph_nodes(*g).len();
    let mut i: usize = 0;
    while i < nodes.len()
        invariant
            i <= nodes@.len(),
            n0 + nodes@.len() < u32::MAX,
            graph_nodes(*g).len() == n0 + i,
            graph_edges(*g) == st0.1,
            ids_within(ids@, graph_nodes(*g).len()),
            (node_views(*g), graph_edges(*g), ids@) == add_records(nodes@.take(i as int), st0),
        decreases nodes@.len() - i,
    {
        let ghost before = graph_nodes(*g);
        assert(nodes@.take(i as int + 1).drop_last() =~= nodes@.take(i as int));
        let w = graph_node(&nodes[i]);
        let idx = add_graph_node(g, w);
        ids.insert(nodes[i].id, idx);
        assert(node_views(*g) =~= node_views_of(before).push(graph_node_view(w)));
        i += 1;
    }
    assert(nodes@.take(nodes@.len() as int) =~= nodes@);
}

pub open spec fn node_views_of(s: Seq<GraphNode>) -> Seq<NodeView> {
    s.map_values(|n: GraphNode| graph_node_view(n))
}

/// Adds the stored relationships whose two ends are mapped.
fn add_edge_records(g: &mut CodeGraph, ids: &HashMap<i64, usize>, edges: &[(i64, i64, String, u32)])
    requires
        graph_edges(*old(g)).len() + edges@.len() < u32::MAX,
        ids_within(ids@, graph_nodes(*old(g)).len()),
    ensures
        (node_views(*final(g)), graph_edges(*final(g)), ids@) == add_edge_rows(
            edges@.map_values(|e: (i64, i64, String, u32)| edge_row_view(e)),
            (node_views(*old(g)), graph_edges(*old(g)), ids@),
        ),
        graph_nodes(*final(g)) == graph_nodes(*old(g)),
        graph_edges(*final(g)).len() <= graph_edges(*old(g)).len() + edges@.len(),
{
    broadcast use vstd::std_specs::hash::group_hash_axioms;
    let ghost st0 = (node_views(*g), graph_edges(*g), ids@);
    let ghost e0 = graph_edges(*g).len();
    let ghost nodes0 = graph_nodes(*g);
    let ghost ev = edges@.map_values(|e: (i64, i64, String, u32)| edge_row_view(e));
    let mut i: usize = 0;
    while i < edges.len()
        invariant
            i <= edges@.len(),
            e0 + edges@.len() < u32::MAX,
            graph_edges(*g).len() <= e0 + i,
            graph_nodes(*g) == nodes0,
            ids_within(ids@, nodes0.len()),
            ev == edges@.map_values(|e: (i64, i64, String, u32)| edge_row_view(e)),
            (node_views(*g), graph_edges(*g), ids@) == add_edge_rows(ev.take(i as int), st0),
        decreases edges@.len() - i,
    {
        assert(ev.take(i as int + 1).drop_last() =~= ev.take(i as int));
        assert(ev.take(i as int + 1).last() == edge_row_view(edges@[i as int]));
        let e = &edges[i];
        match (ids.get(&e.0), ids.get(&e.1)) {
            (Some(s), Some(t)) => {
                let kind = edge_kind_or_calls(e.2.as_str());
                add_graph_edge(g, *s, *t, GraphEdge { kind, confidence: e.3 });
            },
            _ => {},
        }
        i += 1;
    }
    assert(ev.take(edges@.len() as int) =~= ev);
}

/// The node made for a (workspace, qualified name) pair, if any.
fn find_synthetic(syn: &Vec<(Vec<char>, Vec<char>, usize)>, ws: &Vec<char>, q: &Vec<char>) -> (r: Option<usize>)
    ensures
        match r {
            Some(t) => synthetic_for(syn_views(syn@), ws@, q@) == Some(t as nat) && exists|j: int|
                0 <= j < syn@.len() && (#[trigger] syn@[j]).2 == t,
            None => synthetic_for(syn_views(syn@), ws@, q@) is None,
        },
{
    let mut k: usize = syn.len();
    assert(syn@.take(k as int) =~= syn@);
    while k > 0
        invariant
            k <= syn@.len(),
            synthetic_for(syn_views(syn@), ws@, q@) == synthetic_for(syn_views(syn@.take(k as int)), ws@, q@),
        decreases k,
    {
        let ghost t = syn_views(syn@.take(k as int));
        assert(t.drop_last() =~= syn_views(syn@.take(k - 1)));
        if eq_chars(&syn[k - 1].0, ws) && eq_chars(&syn[k - 1].1, q) {
            assert(syn@[k - 1].2 == syn[k - 1].2);
            return Some(syn[k - 1].2);
        }
        k -= 1;
    }
    None
}

pub open spec fn syn_views(s: Seq<(Vec<char>, Vec<char>, usize)>) -> Seq<(Seq<char>, Seq<char>, nat)> {
    s.map_values(|x: (Vec<char>, Vec<char>, usize)| (x.0@, x.1@, x.2 as nat))
}

/// Adds the relationships to symbols of other workspaces, as
/// [`add_cross_rows`] says, starting from the id `-1`; returns how many
/// relationships were added.
fn add_cross_workspace_edges(
    g: &mut CodeGraph,
    ids: &mut HashMap<i64, usize>,
    cross: &[(i64, String, String, String, u32)],
) -> (count: usize)
    requires
        graph_nodes(*old(g)).len() + cross@.len() < u32::MAX,
        graph_edges(*old(g)).len() + cross@.len() < u32::MAX,
        ids_within(old(ids)@, graph_nodes(*old(g)).len()),
    ensures
        (node_views(*final(g)), graph_edges(*final(g)), final(ids)@) == add_cross_rows(
            cross@.map_values(|r: (i64, String, String, String, u32)| cross_row_view(r)),
            ((node_views(*old(g)), graph_edges(*old(g)), old(ids)@), seq![], -1),
        ).0,
        count == graph_edges(*final(g)).len() - graph_edges(*old(g)).len(),
        ids_within(final(ids)@, graph_nodes(*final(g)).len()),
{
    broadcast use vstd::std_specs::hash::group_hash_axioms;
    let ghost b0 = (node_views(*g), graph_edges(*g), ids@);
    let ghost n0 = graph_nodes(*g).len();
    let ghost e0 = graph_edges(*g).len();
    let ghost rv = cross@.map_values(|r: (i64, String, String, String, u32)| cross_row_view(r));
    let mut syn: Vec<(Vec<char>, Vec<char>, usize)> = Vec::new();
    let mut next_id: i64 = -1;
    let mut count: usize = 0;
    let mut i: usize = 0;
    assert(syn_views(syn@) =~= Seq::<(Seq<char>, Seq<char>, nat)>::empty());
    while i < cross.len()
        invariant
            i <= cross@.len(),
            n0 + cross@.len() < u32::MAX,
            e0 + cross@.len() < u32::MAX,
            graph_nodes(*g).len() <= n0 + i,
            graph_edges(*g).len() == e0 + count,
            count <= i,
            -1 - i <= next_id <= -1,
            ids_within(ids@, graph_nodes(*g).len()),
            forall|j: int| 0 <= j < syn@.len() ==> (#[trigger] syn@[j]).2 < graph_nodes(*g).len(),
            rv == cross@.map_values(|r: (i64, String, String, String, u32)| cross_row_view(r)),
            ((node_views(*g), graph_edges(*g), ids@), syn_views(syn@), next_id as int) == add_cross_rows(
                rv.take(i as int),
                (b0, seq![], -1),
            ),
        decreases cross@.len() - i,
    {
        assert(rv.take(i as int + 1).drop_last() =~= rv.take(i as int));
        assert(rv.take(i as int + 1).last() == cross_row_view(cross@[i as int]));
        let r = &cross[i];
        let src = match ids.get(&r.0) {
            Some(s) => *s,
            None => {
                i += 1;
                continue;
            },
        };
        let kind = edge_kind_or_calls(r.3.as_str());
        let ws = chars_of(r.1.as_str());
        let q = chars_of(r.2.as_str());
        let tgt = match find_synthetic(&syn, &ws, &q) {
            Some(t) => t,
            None => {
                let ghost before = graph_nodes(*g);
                let name = last_segment_of(r.2.as_str());
                let w = GraphNode {
                    db_id: next_id,
                    name,
                    qualified_name: Some(r.2.clone()),
                    kind: NodeKind::External,
                    file_id: -1,
                };
                let t = add_graph_node(g, w);
                assert(node_views(*g) =~= node_views_of(before).push(graph_node_view(w)));
                ids.insert(next_id, t);
                let ghost sv = syn_views(syn@);
                syn.push((ws, q, t));
                assert(syn_views(syn@) =~= sv.push((r.1@, r.2@, t as nat)));
                next_id = next_id - 1;
                t
            },
        };
        add_graph_edge(g, src, tgt, GraphEdge { kind, confidence: r.4 });
        count += 1;
        i += 1;
    }
    assert(rv.take(cross@.len() as int) =~= rv);
    count
}

/// Builds the symbol graph: the stored symbols in order (an unknown kind
/// becomes `external`), the stored relationships whose two ends are stored
/// symbols (an unknown kind becomes `calls`), then the relationships to
/// symbols of other workspaces, each of which is stood for by one external
/// node with a negative id; with the map from ids to node indices.
pub fn build_graph(
    nodes: &[NodeRecord],
    edges: &[(i64, i64, String, u32)],
    cross: &[(i64, String, String, String, u32)],
) -> (r: (CodeGraph, HashMap<i64, usize>))
    requires
        nodes@.len() + cross@.len() < u32::MAX,
        edges@.len() + cross@.len() < u32::MAX,
    ensures
        (node_views(r.0), graph_edges(r.0), r.1@) == built(nodes@, edges@, cross@),
        ids_within(r.1@, graph_nodes(r.0).len()),
        ids_match(node_views(r.0), r.1@),
{
    broadcast use vstd::std_specs::hash::group_hash_axioms;
    let mut g = empty_graph();
    let mut ids: HashMap<i64, usize> = HashMap::new();
    assert(node_views(g) =~= Seq::<NodeView>::empty());
    add_node_records(&mut g, &mut ids, nodes);
    add_edge_records(&mut g, &ids, edges);
    add_cross_workspace_edges(&mut g, &mut ids, cross);
    proof {
        let b1 = add_records(nodes@, (seq![], seq![], Map::empty()));
        let rows = edges@.map_values(|e: (i64, i64, String, u32)| edge_row_view(e));
        lemma_add_records_match(nodes@, (seq![], seq![], Map::empty()));
        lemma_add_edge_rows_nodes(rows, b1);
        lemma_add_cross_rows_match(
            cross@.map_values(|r: (i64, String, String, String, u32)| cross_row_view(r)),
            (add_edge_rows(rows, b1), seq![], -1),
        );
    }
    (g, ids)
}

/// A sequence with the element at `a` replaced by the last one, and the last
/// one dropped.
pub open spec fn swap_removed<T>(s: Seq<T>, a: int) -> Seq<T> {
    if a == s.len() - 1 {
        s.drop_last()
    } else {
        s.update(a, s.last()).drop_last()
    }
}

/// Where a node index ends up when the node at `a` is removed and the last
/// one, at `last`, takes its place.
pub open spec fn moved(x: nat, a: nat, last: nat) -> nat {
    if x == last {
        a
    } else {
        x
    }
}

/// The relationships left when the node at `a` is removed: those not
/// touching it, with the ends at `last` moved to `a`.
pub open spec fn edges_after_removal(es: Seq<(nat, nat, EdgeKind)>, a: nat, last: nat) -> Seq<(nat, nat, EdgeKind)>
    decreases es.len(),
{
    if es.len() == 0 {
        seq![]
    } else {
        let r = edges_after_removal(es.drop_last(), a, last);
        let e = es.last();
        if e.0 == a || e.1 == a {
            r
        } else {
            r.push((moved(e.0, a, last), moved(e.1, a, last), e.2))
        }
    }
}

/// `Graph::remove_node`: the symbol at `a` is removed and the last symbol
/// takes its index; the relationships touching `a` are removed and those at
/// the last symbol follow it. petgraph renumbers the remaining
/// relationships by swapping too; their new order is not stated, only which
/// relationships remain, each as often as before.
#[verifier::external_body]
pub(crate) fn remove_graph_node(g: &mut CodeGraph, a: usize)
    requires
        a < graph_nodes(*old(g)).len(),
    ensures
        graph_nodes(*final(g)) == swap_removed(graph_nodes(*old(g)), a as int),
        graph_edges(*final(g)).to_multiset() == edges_after_removal(
            graph_edges(*old(g)),
            a as nat,
            (graph_nodes(*old(g)).len() - 1) as nat,
        ).to_multiset(),
{
    g.remove_node(NodeIndex::new(a));
}

proof fn lemma_edges_after_removal_append(x: Seq<(nat, nat, EdgeKind)>, y: Seq<(nat, nat, EdgeKind)>, a: nat, last: nat)
    ensures
        edges_after_removal(x + y, a, last) == edges_after_removal(x, a, last) + edges_after_removal(y, a, last),
    decreases y.len(),
{
    if y.len() == 0 {
        assert(x + y =~= x);
        assert(edges_after_removal(x, a, last) + seq![] =~= edges_after_removal(x, a, last));
    } else {
        lemma_edges_after_removal_append(x, y.drop_last(), a, last);
        assert((x + y).drop_last() =~= x + y.drop_last());
        assert((x + y).last() == y.last());
        let r = edges_after_removal(x, a, last);
        let ry = edges_after_removal(y.drop_last(), a, last);
        let e = y.last();
        if !(e.0 == a || e.1 == a) {
            assert(r + ry.push((moved(e.0, a, last), moved(e.1, a, last), e.2)) =~= (r + ry).push(
                (moved(e.0, a, last), moved(e.1, a, last), e.2),
            ));
        }
    }
}

/// Removing a node treats relationships that are the same multiset alike.
proof fn lemma_edges_after_removal_multiset(s: Seq<(nat, nat, EdgeKind)>, t: Seq<(nat, nat, EdgeKind)>, a: nat, last: nat)
    requires
        s.to_multiset() == t.to_multiset(),
    ensures
        edges_after_removal(s, a, last).to_multiset() == edges_after_removal(t, a, last).to_multiset(),
    decreases s.len(),
{
    broadcast use vstd::seq_lib::group_to_multiset_ensures;
    broadcast use vstd::multiset::group_multiset_axioms;

    if s.len() == 0 {
        s.to_multiset_ensures();
        t.to_multiset_ensures();
        assert(t.len() == 0);
        assert(t =~= s);
    } else {
        let x = s.last();
        assert(t.to_multiset().count(x) > 0);
        assert(t.contains(x));
        let j = choose|j: int| 0 <= j < t.len() && t[j] == x;
        let t2 = t.remove(j);
        assert(t2.to_multiset() == t.to_multiset().remove(x));
        assert(s =~= s.drop_last().push(x));
        assert(s.drop_last().to_multiset() =~= s.to_multiset().remove(x));
        lemma_edges_after_removal_multiset(s.drop_last(), t2, a, last);
        assert(t =~= t.take(j) + seq![x] + t.skip(j + 1));
        assert(t2 =~= t.take(j) + t.skip(j + 1));
        lemma_edges_after_removal_append(t.take(j) + seq![x], t.skip(j + 1), a, last);
        lemma_edges_after_removal_append(t.take(j), seq![x], a, last);
        lemma_edges_after_removal_append(t.take(j), t.skip(j + 1), a, last);
        let ex = edges_after_removal(seq![x], a, last);
        assert(seq![x].drop_last() =~= Seq::<(nat, nat, EdgeKind)>::empty());
        assert(seq![x].last() == x);
        assert(edges_after_removal(Seq::<(nat, nat, EdgeKind)>::empty(), a, last) =~= seq![]);
        assert(ex == if x.0 == a || x.1 == a {
            Seq::<(nat, nat, EdgeKind)>::empty()
        } else {
            seq![(moved(x.0, a, last), moved(x.1, a, last), x.2)]
        }) by {
            if !(x.0 == a || x.1 == a) {
                assert(Seq::<(nat, nat, EdgeKind)>::empty().push((moved(x.0, a, last), moved(x.1, a, last), x.2))
                    =~= seq![(moved(x.0, a, last), moved(x.1, a, last), x.2)]);
            }
        }
        let p = edges_after_removal(t.take(j), a, last);
        let q = edges_after_removal(t.skip(j + 1), a, last);
        vstd::seq_lib::lemma_multiset_commutative(p + ex, q);
        vstd::seq_lib::lemma_multiset_commutative(p, ex);
        vstd::seq_lib::lemma_multiset_commutative(p, q);
        let rs = edges_after_removal(s.drop_last(), a, last);
        assert(edges_after_removal(s, a, last) == rs + ex) by {
            if x.0 == a || x.1 == a {
                assert(rs + ex =~= rs);
            } else {
                assert(rs + ex =~= rs.push((moved(x.0, a, last), moved(x.1, a, last), x.2)));
            }
        }
        vstd::seq_lib::lemma_multiset_commutative(rs, ex);
        assert(edges_after_removal(t, a, last).to_multiset() =~= p.to_multiset().add(ex.to_multiset()).add(
            q.to_multiset(),
        ));
        assert(edges_after_removal(t2, a, last).to_multiset() =~= p.to_multiset().add(q.to_multiset()));
    }
}

/// Symbols and relationships of a graph, as a removal pass sees them.
pub type GraphState = (Seq<GraphNode>, Seq<(nat, nat, EdgeKind)>);

/// The symbols of the changed files among the first `k` removed one by one,
/// from index `k - 1` down to 0, so that no removal moves a symbol still to
/// be looked at.
pub open spec fn drop_changed(st: GraphState, k: nat, changed: Seq<i64>) -> GraphState
    decreases k,
{
    if k == 0 {
        st
    } else {
        let i = (k - 1) as nat;
        let s = if i < st.0.len() && changed.contains(st.0[i as int].file_id) {
            (swap_removed(st.0, i as int), edges_after_removal(st.1, i, (st.0.len() - 1) as nat))
        } else {
            st
        };
        drop_changed(s, i, changed)
    }
}

fn contains_id(v: &[i64], x: i64) -> (r: bool)
    ensures
        r == v@.contains(x),
{
    let mut j: usize = 0;
    while j < v.len()
        invariant
            j <= v@.len(),
            forall|k: int| 0 <= k < j ==> v@[k] != x,
        decreases v.len() - j,
    {
        if v[j] == x {
            assert(v@[j as int] == x);
            return true;
        }
        j += 1;
    }
    false
}

/// Removes every symbol of the changed files, as [`drop_changed`] says; the
/// relationships left are those it says, each as often.
fn remove_changed_nodes(g: &mut CodeGraph, changed: &[i64])
    ensures
        graph_nodes(*final(g)) == drop_changed(
            (graph_nodes(*old(g)), graph_edges(*old(g))),
            graph_nodes(*old(g)).len(),
            changed@,
        ).0,
        graph_edges(*final(g)).to_multiset() == drop_changed(
            (graph_nodes(*old(g)), graph_edges(*old(g))),
            graph_nodes(*old(g)).len(),
            changed@,
        ).1.to_multiset(),
{
    let n = node_count_of(g);
    let ghost target = drop_changed((graph_nodes(*g), graph_edges(*g)), n as nat, changed@);
    let ghost mut es = graph_edges(*g);
    let mut i: usize = n;
    while i > 0
        invariant
            i <= graph_nodes(*g).len(),
            graph_edges(*g).to_multiset() == es.to_multiset(),
            drop_changed((graph_nodes(*g), es), i as nat, changed@) == target,
        decreases i,
    {
        let j = i - 1;
        let f = node_at(g, j).file_id;
        if contains_id(changed, f) {
            let ghost before = graph_edges(*g);
            let ghost last = (graph_nodes(*g).len() - 1) as nat;
            remove_graph_node(g, j);
            proof {
                lemma_edges_after_removal_multiset(before, es, j as nat, last);
                es = edges_after_removal(es, j as nat, last);
            }
        }
        i = j;
    }
}

/// The id map of a graph's symbols: each id to the index of the last symbol
/// that has it.
pub open spec fn index_ids(ns: Seq<GraphNode>) -> Map<i64, usize>
    decreases ns.len(),
{
    if ns.len() == 0 {
        Map::empty()
    } else {
        index_ids(ns.drop_last()).insert(ns.last().db_id, (ns.len() - 1) as usize)
    }
}

/// The id map of the graph's symbols, as [`index_ids`] says.
fn reindex(g: &CodeGraph) -> (ids: HashMap<i64, usize>)
    ensures
        ids@ == index_ids(graph_nodes(*g)),
        ids_within(ids@, graph_nodes(*g).len()),
{
    broadcast use vstd::std_specs::hash::group_hash_axioms;
    let n = node_count_of(g);
    let mut ids: HashMap<i64, usize> = HashMap::new();
    let mut i: usize = 0;
    while i < n
        invariant
            i <= n,
            n == graph_nodes(*g).len(),
            ids@ == index_ids(graph_nodes(*g).take(i as int)),
            ids_within(ids@, n as nat),
        decreases n - i,
    {
        assert(graph_nodes(*g).take(i as int + 1).drop_last() =~= graph_nodes(*g).take(i as int));
        ids.insert(node_at(g, i).db_id, i);
        i += 1;
    }
    assert(graph_nodes(*g).take(n as int) =~= graph_nodes(*g));
    ids
}

proof fn lemma_add_records_keeps_edges(rs: Seq<NodeRecord>, st: BuildView)
    ensures
        add_records(rs, st) == (
            add_records(rs, (st.0, seq![], st.2)).0,
            st.1,
            add_records(rs, (st.0, seq![], st.2)).2,
        ),
    decreases rs.len(),
{
    if rs.len() > 0 {
        lemma_add_records_keeps_edges(rs.drop_last(), st);
    }
}

proof fn lemma_add_edge_rows_appends(es: Seq<EdgeRowView>, st: BuildView)
    ensures
        add_edge_rows(es, st) == (st.0, st.1 + add_edge_rows(es, (st.0, seq![], st.2)).1, st.2),
    decreases es.len(),
{
    if es.len() == 0 {
        assert(st.1 + Seq::<(nat, nat, EdgeKind)>::empty() =~= st.1);
    } else {
        lemma_add_edge_rows_appends(es.drop_last(), st);
        lemma_add_edge_rows_appends(es.drop_last(), (st.0, seq![], st.2));
        let r = add_edge_rows(es.drop_last(), (st.0, seq![], st.2)).1;
        assert(Seq::<(nat, nat, EdgeKind)>::empty() + r =~= r);
        let e = es.last();
        if st.2.contains_key(e.0) && st.2.contains_key(e.1) {
            let x = (st.2[e.0] as nat, st.2[e.1] as nat, edge_kind_or(e.2, EdgeKind::Calls));
            assert((st.1 + r).push(x) =~= st.1 + r.push(x));
        }
    }
}

proof fn lemma_drop_changed_edges_len(st: GraphState, k: nat, changed: Seq<i64>)
    ensures
        drop_changed(st, k, changed).1.len() <= st.1.len(),
        drop_changed(st, k, changed).0.len() <= st.0.len(),
    decreases k,
{
    if k > 0 {
        let i = (k - 1) as nat;
        if i < st.0.len() && changed.contains(st.0[i as int].file_id) {
            lemma_edges_after_removal_len(st.1, i, (st.0.len() - 1) as nat);
            let s = (swap_removed(st.0, i as int), edges_after_removal(st.1, i, (st.0.len() - 1) as nat));
            lemma_drop_changed_edges_len(s, i, changed);
        } else {
            lemma_drop_changed_edges_len(st, i, changed);
        }
    }
}

proof fn lemma_edges_after_removal_len(es: Seq<(nat, nat, EdgeKind)>, a: nat, last: nat)
    ensures
        edges_after_removal(es, a, last).len() <= es.len(),
    decreases es.len(),
{
    if es.len() > 0 {
        lemma_edges_after_removal_len(es.drop_last(), a, last);
    }
}

/// The symbols of changed files replaced: every symbol of a changed file is
/// removed (as [`drop_changed`] says), the id map is rebuilt from the
/// symbols left, the files' current symbols are added, and then the stored
/// relationships given for them whose two ends are mapped. The
/// relationships of the result are those left by the removal and those
/// added, each as often.
pub fn replace_file_nodes(
    g: &mut CodeGraph,
    ids: &mut HashMap<i64, usize>,
    changed_file_ids: &[i64],
    new_nodes: &[NodeRecord],
    new_edges: &[(i64, i64, String, u32)],
)
    requires
        graph_nodes(*old(g)).len() + new_nodes@.len() < u32::MAX,
        graph_edges(*old(g)).len() + new_edges@.len() < u32::MAX,
    ensures
        ({
            let d = drop_changed((graph_nodes(*old(g)), graph_edges(*old(g))), graph_nodes(*old(g)).len(), changed_file_ids@);
            let b = add_records(new_nodes@, (node_views_of(d.0), seq![], index_ids(d.0)));
            let e = add_edge_rows(
                new_edges@.map_values(|e: (i64, i64, String, u32)| edge_row_view(e)),
                (b.0, seq![], b.2),
            );
            &&& node_views(*final(g)) == b.0
            &&& final(ids)@ == b.2
            &&& graph_edges(*final(g)).to_multiset() == (d.1 + e.1).to_multiset()
        }),
        ids_within(final(ids)@, graph_nodes(*final(g)).len()),
        ids_match(node_views(*final(g)), final(ids)@),
{
    broadcast use vstd::seq_lib::group_to_multiset_ensures;
    let ghost d = drop_changed((graph_nodes(*g), graph_edges(*g)), graph_nodes(*g).len(), changed_file_ids@);
    proof {
        lemma_drop_changed_edges_len((graph_nodes(*g), graph_edges(*g)), graph_nodes(*g).len(), changed_file_ids@);
    }
    remove_changed_nodes(g, changed_file_ids);
    proof {
        graph_edges(*g).to_multiset_ensures();
        d.1.to_multiset_ensures();
    }
    *ids = reindex(g);
    let ghost e1 = graph_edges(*g);
    let ghost st1 = (node_views(*g), graph_edges(*g), ids@);
    proof {
        lemma_index_ids_match(graph_nodes(*g));
        assert(node_views(*g) =~= node_views_of(graph_nodes(*g)));
    }
    add_node_records(g, ids, new_nodes);
    proof {
        lemma_add_records_keeps_edges(new_nodes@, st1);
    }
    proof {
        lemma_add_records_match(new_nodes@, st1);
    }
    let ghost st2 = (node_views(*g), graph_edges(*g), ids@);
    let ghost rows = new_edges@.map_values(|e: (i64, i64, String, u32)| edge_row_view(e));
    add_edge_records(g, ids, new_edges);
    proof {
        lemma_add_edge_rows_appends(rows, st2);
        lemma_add_edge_rows_nodes(rows, st2);
        let added = add_edge_rows(rows, (st2.0, seq![], st2.2)).1;
        vstd::seq_lib::lemma_multiset_commutative(e1, added);
        vstd::seq_lib::lemma_multiset_commutative(d.1, added);
    }
}

/// The symbols of files that did not change, in order.
pub open spec fn kept_nodes(ns: Seq<GraphNode>, changed: Seq<i64>) -> Seq<GraphNode>
    decreases ns.len(),
{
    if ns.len() == 0 {
        seq![]
    } else if changed.contains(ns.last().file_id) {
        kept_nodes(ns.drop_last(), changed)
    } else {
        kept_nodes(ns.drop_last(), changed).push(ns.last())
    }
}

proof fn lemma_kept_nodes_push(ns: Seq<GraphNode>, x: GraphNode, changed: Seq<i64>)
    ensures
        kept_nodes(ns.push(x), changed) == if changed.contains(x.file_id) {
            kept_nodes(ns, changed)
        } else {
            kept_nodes(ns, changed).push(x)
        },
{
    assert(ns.push(x).drop_last() =~= ns);
}

proof fn lemma_drop_changed_multiset(st: GraphState, k: nat, changed: Seq<i64>)
    requires
        k <= st.0.len(),
    ensures
        drop_changed(st, k, changed).0.to_multiset() == kept_nodes(st.0.take(k as int), changed).to_multiset().add(
            st.0.skip(k as int).to_multiset(),
        ),
    decreases k,
{
    broadcast use vstd::seq_lib::group_to_multiset_ensures;
    broadcast use vstd::multiset::group_multiset_axioms;

    let n = st.0;
    if k == 0 {
        assert(n.take(0) =~= Seq::<GraphNode>::empty());
        assert(n.skip(0) =~= n);
        assert(kept_nodes(n.take(0), changed) =~= Seq::<GraphNode>::empty());
        assert(Seq::<GraphNode>::empty().to_multiset() =~= Multiset::<GraphNode>::empty());
        assert(Multiset::<GraphNode>::empty().add(n.to_multiset()) =~= n.to_multiset());
    } else {
        let i = (k - 1) as nat;
        assert(n.take(k as int) =~= n.take(i as int).push(n[i as int]));
        lemma_kept_nodes_push(n.take(i as int), n[i as int], changed);
        if changed.contains(n[i as int].file_id) {
            let m = swap_removed(n, i as int);
            let s = (m, edges_after_removal(st.1, i, (n.len() - 1) as nat));
            lemma_drop_changed_multiset(s, i, changed);
            assert(m.take(i as int) =~= n.take(i as int));
            assert(m.skip(i as int).to_multiset() =~= n.skip(k as int).to_multiset()) by {
                if i == n.len() - 1 {
                    assert(m.skip(i as int) =~= Seq::<GraphNode>::empty());
                    assert(n.skip(k as int) =~= Seq::<GraphNode>::empty());
                } else {
                    let mid = n.subrange(k as int, n.len() - 1);
                    assert(m.skip(i as int) =~= seq![n.last()] + mid);
                    assert(n.skip(k as int) =~= mid.push(n.last()));
                    vstd::seq_lib::lemma_multiset_commutative(seq![n.last()], mid);
                    assert(seq![n.last()] =~= Seq::<GraphNode>::empty().push(n.last()));
                }
            }
        } else {
            lemma_drop_changed_multiset(st, i, changed);
            assert(n.skip(i as int) =~= seq![n[i as int]] + n.skip(k as int));
            vstd::seq_lib::lemma_multiset_commutative(seq![n[i as int]], n.skip(k as int));
            assert(seq![n[i as int]] =~= Seq::<GraphNode>::empty().push(n[i as int]));
            let kt = kept_nodes(n.take(i as int), changed);
            assert(kt.push(n[i as int]).to_multiset() =~= kt.to_multiset().insert(n[i as int]));
        }
    }
}

/// Removing the symbols of changed files keeps every symbol of the other
/// files, each as often as before, and leaves none of a changed file.
pub proof fn lemma_removal_keeps_unchanged_files(st: GraphState, changed: Seq<i64>)
    ensures
        drop_changed(st, st.0.len(), changed).0.to_multiset() == kept_nodes(st.0, changed).to_multiset(),
        forall|j: int|
            0 <= j < drop_changed(st, st.0.len(), changed).0.len() ==> !changed.contains(
                #[trigger] drop_changed(st, st.0.len(), changed).0[j].file_id,
            ),
{
    broadcast use vstd::seq_lib::group_to_multiset_ensures;
    broadcast use vstd::multiset::group_multiset_axioms;

    lemma_drop_changed_multiset(st, st.0.len(), changed);
    assert(st.0.take(st.0.len() as int) =~= st.0);
    assert(st.0.skip(st.0.len() as int) =~= Seq::<GraphNode>::empty());
    assert(kept_nodes(st.0, changed).to_multiset().add(Multiset::<GraphNode>::empty()) =~= kept_nodes(
        st.0,
        changed,
    ).to_multiset());
    let r = drop_changed(st, st.0.len(), changed).0;
    assert forall|j: int| 0 <= j < r.len() implies !changed.contains(#[trigger] r[j].file_id) by {
        assert(r.to_multiset().count(r[j]) > 0);
        lemma_kept_nodes_only_unchanged(st.0, changed, r[j]);
    }
}

proof fn lemma_kept_nodes_only_unchanged(ns: Seq<GraphNode>, changed: Seq<i64>, x: GraphNode)
    requires
        kept_nodes(ns, changed).to_multiset().count(x) > 0,
    ensures
        !changed.contains(x.file_id),
    decreases ns.len(),
{
    broadcast use vstd::seq_lib::group_to_multiset_ensures;
    broadcast use vstd::multiset::group_multiset_axioms;

    if ns.len() > 0 {
        let k = kept_nodes(ns.drop_last(), changed);
        if changed.contains(ns.last().file_id) {
            lemma_kept_nodes_only_unchanged(ns.drop_last(), changed, x);
        } else if x != ns.last() {
            assert(k.push(ns.last()).to_multiset() =~= k.to_multiset().insert(ns.last()));
            lemma_kept_nodes_only_unchanged(ns.drop_last(), changed, x);
        }
    }
}

/// The id map and the symbols agree: each mapped id leads to a symbol with
/// that id, and every symbol's id is mapped.
pub open spec fn ids_match(nodes: Seq<NodeView>, ids: Map<i64, usize>) -> bool {
    &&& forall|k: i64| ids.contains_key(k) ==> (#[trigger] ids[k]) < nodes.len() && nodes[ids[k] as int].0 == k
    &&& forall|j: int| 0 <= j < nodes.len() ==> ids.contains_key(#[trigger] nodes[j].0)
}

proof fn lemma_add_records_match(rs: Seq<NodeRecord>, st: BuildView)
    requires
        ids_match(st.0, st.2),
        st.0.len() + rs.len() < u32::MAX,
    ensures
        ids_match(add_records(rs, st).0, add_records(rs, st).2),
        add_records(rs, st).0.len() == st.0.len() + rs.len(),
    decreases rs.len(),
{
    if rs.len() > 0 {
        lemma_add_records_match(rs.drop_last(), st);
        let s = add_records(rs.drop_last(), st);
        let r = add_records(rs, st);
        assert forall|k: i64| r.2.contains_key(k) implies (#[trigger] r.2[k]) < r.0.len() && r.0[r.2[k] as int].0
            == k by {
            if k != rs.last().id {
                assert(s.2.contains_key(k));
            }
        }
        assert forall|j: int| 0 <= j < r.0.len() implies r.2.contains_key(#[trigger] r.0[j].0) by {
            if j < s.0.len() {
                assert(s.2.contains_key(s.0[j].0));
            }
        }
    }
}

proof fn lemma_add_edge_rows_nodes(es: Seq<EdgeRowView>, st: BuildView)
    ensures
        add_edge_rows(es, st).0 == st.0,
        add_edge_rows(es, st).2 == st.2,
    decreases es.len(),
{
    if es.len() > 0 {
        lemma_add_edge_rows_nodes(es.drop_last(), st);
    }
}

proof fn lemma_add_cross_rows_match(rows: Seq<CrossRowView>, cs: CrossState)
    requires
        ids_match(cs.0.0, cs.0.2),
        cs.0.0.len() + rows.len() < u32::MAX,
        -1 - u32::MAX <= cs.2 - rows.len() && cs.2 <= -1,
    ensures
        ids_match(add_cross_rows(rows, cs).0.0, add_cross_rows(rows, cs).0.2),
        add_cross_rows(rows, cs).0.0.len() <= cs.0.0.len() + rows.len(),
        cs.2 - rows.len() <= add_cross_rows(rows, cs).2 <= cs.2,
    decreases rows.len(),
{
    if rows.len() > 0 {
        lemma_add_cross_rows_match(rows.drop_last(), cs);
        let c = add_cross_rows(rows.drop_last(), cs);
        let r = add_cross_rows(rows, cs);
        assert forall|k: i64| r.0.2.contains_key(k) implies (#[trigger] r.0.2[k]) < r.0.0.len() && r.0.0[r.0.2[k] as int].0
            == k by {
            if c.0.2.contains_key(k) && r.0.2[k] == c.0.2[k] {
                assert(c.0.0[c.0.2[k] as int] == r.0.0[c.0.2[k] as int]);
            }
        }
        assert forall|j: int| 0 <= j < r.0.0.len() implies r.0.2.contains_key(#[trigger] r.0.0[j].0) by {
            if j < c.0.0.len() {
                assert(c.0.2.contains_key(c.0.0[j].0));
            }
        }
    }
}

proof fn lemma_index_ids_match(ns: Seq<GraphNode>)
    requires
        ns.len() < u32::MAX,
    ensures
        ids_match(node_views_of(ns), index_ids(ns)),
    decreases ns.len(),
{
    if ns.len() > 0 {
        lemma_index_ids_match(ns.drop_last());
        let v = node_views_of(ns);
        let p = node_views_of(ns.drop_last());
        assert(v =~= p.push(graph_node_view(ns.last())));
        assert forall|k: i64| index_ids(ns).contains_key(k) implies (#[trigger] index_ids(ns)[k]) < v.len()
            && v[index_ids(ns)[k] as int].0 == k by {
            if k != ns.last().db_id {
                assert(index_ids(ns.drop_last()).contains_key(k));
            }
        }
        assert forall|j: int| 0 <= j < v.len() implies index_ids(ns).contains_key(#[trigger] v[j].0) by {
            if j < p.len() {
                assert(index_ids(ns.drop_last()).contains_key(p[j].0));
            }
        }
    }
}

} // verus!
