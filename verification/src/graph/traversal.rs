//! Walks over the symbol graph: breadth-first impact levels, simple paths
//! between two symbols, and their reports.
use vstd::prelude::*;

use std::collections::{HashMap, HashSet};

use petgraph::graph::{EdgeIndex, Graph, NodeIndex};
use petgraph::{Directed, Direction};

use crate::graph::{names_symbol, parse_direction, shown_name, GraphEdge, GraphNode, ImpactDirection};
use crate::text::{append_chars, chars_of, decimal, insert_by, lemma_insert_by_shape, push_decimal, sort_by, string_of};
use crate::types::EdgeKind;

verus! {

#[verifier::external_type_specification]
#[verifier::external_body]
#[verifier::reject_recursive_types(N)]
#[verifier::reject_recursive_types(E)]
#[verifier::reject_recursive_types(Ty)]
#[verifier::reject_recursive_types(Ix)]
pub struct ExGraph<N, E, Ty, Ix>(Graph<N, E, Ty, Ix>);

#[verifier::external_type_specification]
#[verifier::external_body]
pub struct ExDirected(Directed);

/// The symbols of a graph, by node index.
pub uninterp spec fn graph_nodes(g: Graph<GraphNode, GraphEdge, Directed, u32>) -> Seq<GraphNode>;

/// The relationships of a graph, by edge index: (source, target, kind).
pub uninterp spec fn graph_edges(g: Graph<GraphNode, GraphEdge, Directed, u32>) -> Seq<(nat, nat, EdgeKind)>;

/// The relationships petgraph lists at a node in one direction, in its
/// order (most recently added first): (edge index, node at the other end).
pub uninterp spec fn graph_incident(g: Graph<GraphNode, GraphEdge, Directed, u32>, node: nat, outgoing: bool) -> Seq<(nat, nat)>;

/// `Graph::node_count`: the number of symbols.
#[verifier::external_body]
pub(crate) fn node_count_of(g: &Graph<GraphNode, GraphEdge, Directed, u32>) -> (r: usize)
    ensures
        r == graph_nodes(*g).len(),
{
    g.node_count()
}

/// Indexing a `Graph` by `NodeIndex`: the symbol at an index.
#[verifier::external_body]
pub(crate) fn node_at(g: &Graph<GraphNode, GraphEdge, Directed, u32>, i: usize) -> (r: &GraphNode)
    requires
        i < graph_nodes(*g).len(),
    ensures
        *r == graph_nodes(*g)[i as int],
{
    &g[NodeIndex::new(i)]
}

/// `Graph::edge_count`: the number of relationships.
#[verifier::external_body]
pub(crate) fn edge_count_of(g: &Graph<GraphNode, GraphEdge, Directed, u32>) -> (r: usize)
    ensures
        r == graph_edges(*g).len(),
{
    g.edge_count()
}

/// Indexing a `Graph` by `EdgeIndex`: the kind of the relationship at an
/// index.
#[verifier::external_body]
pub(crate) fn edge_kind_at(g: &Graph<GraphNode, GraphEdge, Directed, u32>, e: usize) -> (r: EdgeKind)
    requires
        e < graph_edges(*g).len(),
    ensures
        r == graph_edges(*g)[e as int].2,
{
    g[EdgeIndex::new(e)].kind
}

/// `Graph::neighbors_directed(..).detach()` walked to the end: for each
/// relationship at `node` in the direction (outgoing: from `node`;
/// incoming: to it), its index and the node at its other end, in petgraph's
/// order, named `graph_incident`. Each listed relationship exists and does
/// start (outgoing) or end (incoming) at `node`, the other end is a node of
/// the graph, and every relationship that starts (ends) there is listed.
#[verifier::external_body]
pub(crate) fn incident(g: &Graph<GraphNode, GraphEdge, Directed, u32>, node: usize, outgoing: bool) -> (r: Vec<(usize, usize)>)
    requires
        node < graph_nodes(*g).len(),
    ensures
        r@.map_values(|p: (usize, usize)| (p.0 as nat, p.1 as nat)) == graph_incident(*g, node as nat, outgoing),
        forall|j: int|
            0 <= j < r@.len() ==> {
                let (e, other) = #[trigger] r@[j];
                &&& e < graph_edges(*g).len()
                &&& other < graph_nodes(*g).len()
                &&& if outgoing {
                    graph_edges(*g)[e as int].0 == node && graph_edges(*g)[e as int].1 == other
                } else {
                    graph_edges(*g)[e as int].1 == node && graph_edges(*g)[e as int].0 == other
                }
            },
        forall|e: int|
            0 <= e < graph_edges(*g).len() && (if outgoing {
                #[trigger] graph_edges(*g)[e].0 == node
            } else {
                graph_edges(*g)[e].1 == node
            }) ==> exists|j: int| 0 <= j < r@.len() && r@[j].0 == e,
{
    let dir = match outgoing {
        true => Direction::Outgoing,
        false => Direction::Incoming,
    };
    let mut walk = g.neighbors_directed(NodeIndex::new(node), dir).detach();
    let mut v = Vec::new();
    while let Some((e, n)) = walk.next(g) {
        v.push((e.index(), n.index()));
    }
    v
}

/// The graph the engine keeps.
pub type CodeGraph = Graph<GraphNode, GraphEdge, Directed, u32>;

/// Whether a relationship passes the kind filter (every one when there is
/// no filter).
pub open spec fn admitted(g: CodeGraph, e: nat, kinds: Option<Seq<Seq<char>>>) -> bool {
    match kinds {
        Some(ks) => ks.contains(graph_edges(g)[e as int].2.name_view()),
        None => true,
    }
}

/// A breadth-first step at one node: the first `k` relationships it lists;
/// each admitted neighbor not yet visited is visited and joins the next
/// level. The state: (visited, next level).
pub open spec fn scan_incident(
    g: CodeGraph,
    inc: Seq<(nat, nat)>,
    k: nat,
    kinds: Option<Seq<Seq<char>>>,
    st: (Set<nat>, Seq<nat>),
) -> (Set<nat>, Seq<nat>)
    decreases k,
{
    if k == 0 || k > inc.len() {
        st
    } else {
        let s = scan_incident(g, inc, (k - 1) as nat, kinds, st);
        let (e, nb) = inc[k - 1];
        if admitted(g, e, kinds) && !s.0.contains(nb) {
            (s.0.insert(nb), s.1.push(nb))
        } else {
            s
        }
    }
}

/// A breadth-first step over the first `k` nodes of a level.
pub open spec fn expand(
    g: CodeGraph,
    level: Seq<nat>,
    k: nat,
    outgoing: bool,
    kinds: Option<Seq<Seq<char>>>,
    st: (Set<nat>, Seq<nat>),
) -> (Set<nat>, Seq<nat>)
    decreases k,
{
    if k == 0 || k > level.len() {
        st
    } else {
        let inc = graph_incident(g, level[k - 1], outgoing);
        scan_incident(g, inc, inc.len(), kinds, expand(g, level, (k - 1) as nat, outgoing, kinds, st))
    }
}

/// The levels reached from `level` in at most `depth` more steps, each
/// non-empty; the walk stops at the first empty level.
pub open spec fn levels_from(
    g: CodeGraph,
    level: Seq<nat>,
    visited: Set<nat>,
    depth: nat,
    outgoing: bool,
    kinds: Option<Seq<Seq<char>>>,
) -> Seq<Seq<nat>>
    decreases depth,
{
    if depth == 0 {
        seq![]
    } else {
        let (v, next) = expand(g, level, level.len(), outgoing, kinds, (visited, seq![]));
        if next.len() == 0 {
            seq![]
        } else {
            seq![next] + levels_from(g, next, v, (depth - 1) as nat, outgoing, kinds)
        }
    }
}

/// The breadth-first levels around `start`, up to `max_depth` steps along
/// outgoing (callees) or incoming (callers) relationships of the admitted
/// kinds; each node appears at most once, `start` never.
pub open spec fn bfs_levels(g: CodeGraph, start: nat, max_depth: nat, outgoing: bool, kinds: Option<Seq<Seq<char>>>) -> Seq<Seq<nat>> {
    levels_from(g, seq![start], set![start], max_depth, outgoing, kinds)
}

/// A kind filter as plain characters.
pub open spec fn kinds_view(kinds: Option<&Vec<String>>) -> Option<Seq<Seq<char>>> {
    match kinds {
        Some(ks) => Some(ks@.map_values(|k: String| k@)),
        None => None,
    }
}

/// Whether a relationship passes the kind filter.
fn admitted_exec(g: &CodeGraph, e: usize, kinds: Option<&Vec<String>>) -> (r: bool)
    requires
        e < graph_edges(*g).len(),
    ensures
        r == admitted(*g, e as nat, kinds_view(kinds)),
{
    match kinds {
        Some(ks) => {
            let name = edge_kind_at(g, e).as_str();
            let ghost kv = kinds_view(kinds)->0;
            assert(kv.len() == ks@.len());
            let mut i: usize = 0;
            while i < ks.len()
                invariant
                    i <= ks@.len(),
                    kinds_view(kinds) == Some(kv),
                    kv.len() == ks@.len(),
                    e < graph_edges(*g).len(),
                    name@ == graph_edges(*g)[e as int].2.name_view(),
                    forall|j: int| 0 <= j < ks@.len() ==> kv[j] == (#[trigger] ks@[j])@,
                    forall|j: int| 0 <= j < i ==> kv[j] != name@,
                decreases ks.len() - i,
            {
                if crate::text::same_text(ks[i].as_str(), name) {
                    assert(kv[i as int] == name@);
                    assert(kv.contains(name@));
                    return true;
                }
                i += 1;
            }
            false
        },
        None => true,
    }
}

/// Node indices as naturals.
pub open spec fn nats(v: Seq<usize>) -> Seq<nat> {
    v.map_values(|x: usize| x as nat)
}

/// Listed relationships as naturals.
pub open spec fn nat_pairs(v: Seq<(usize, usize)>) -> Seq<(nat, nat)> {
    v.map_values(|p: (usize, usize)| (p.0 as nat, p.1 as nat))
}

/// The nodes a mark vector marks.
pub open spec fn marked(m: Seq<bool>) -> Set<nat> {
    Set::new(|i: nat| i < m.len() && m[i as int])
}

/// A relationship of an admitted kind leads from `a` to `b` in the walked
/// direction (from `a` to `b` for outgoing, from `b` to `a` for incoming).
pub open spec fn step(g: CodeGraph, a: nat, b: nat, outgoing: bool, kinds: Option<Seq<Seq<char>>>) -> bool {
    exists|e: int|
        0 <= e < graph_edges(g).len() && admitted(g, e as nat, kinds) && (if outgoing {
            (#[trigger] graph_edges(g)[e]).0 == a && graph_edges(g)[e].1 == b
        } else {
            graph_edges(g)[e].1 == a && graph_edges(g)[e].0 == b
        })
}

/// Some node of `level` is one step from `x`'s predecessor: `x` is reached
/// from `level` in one step.
pub open spec fn reached_from(g: CodeGraph, level: Seq<nat>, x: nat, outgoing: bool, kinds: Option<Seq<Seq<char>>>) -> bool {
    exists|p: nat| level.contains(p) && #[trigger] step(g, p, x, outgoing, kinds)
}

/// Each node of a level is one step from a node of the level before (from
/// `start` for the first level).
pub open spec fn levels_reached(
    g: CodeGraph,
    start: nat,
    levels: Seq<Seq<nat>>,
    outgoing: bool,
    kinds: Option<Seq<Seq<char>>>,
) -> bool {
    forall|k: int, j: int|
        0 <= k < levels.len() && 0 <= j < levels[k].len() ==> reached_from(
            g,
            if k == 0 {
                seq![start]
            } else {
                levels[k - 1]
            },
            #[trigger] levels[k][j],
            outgoing,
            kinds,
        )
}

/// A breadth-first step at one node, as [`scan_incident`] says.
fn scan_exec(
    g: &CodeGraph,
    inc: &Vec<(usize, usize)>,
    kinds: Option<&Vec<String>>,
    marks: &mut Vec<bool>,
    next: &mut Vec<usize>,
    Ghost(node): Ghost<nat>,
    Ghost(outgoing): Ghost<bool>,
)
    requires
        forall|j: int| 0 <= j < inc@.len() ==> (#[trigger] inc@[j]).0 < graph_edges(*g).len() && inc@[j].1 < old(marks)@.len(),
        forall|j: int| 0 <= j < old(next)@.len() ==> #[trigger] old(next)@[j] < old(marks)@.len(),
        forall|j: int|
            0 <= j < inc@.len() ==> {
                let (e, other) = #[trigger] inc@[j];
                if outgoing {
                    graph_edges(*g)[e as int].0 == node && graph_edges(*g)[e as int].1 == other
                } else {
                    graph_edges(*g)[e as int].1 == node && graph_edges(*g)[e as int].0 == other
                }
            },
    ensures
        old(next)@ == final(next)@.take(old(next)@.len() as int),
        old(next)@.len() <= final(next)@.len(),
        forall|j: int|
            old(next)@.len() <= j < final(next)@.len() ==> step(*g, node, #[trigger] final(next)@[j] as nat, outgoing, kinds_view(kinds)),
        final(marks)@.len() == old(marks)@.len(),
        forall|j: int| 0 <= j < final(next)@.len() ==> #[trigger] final(next)@[j] < final(marks)@.len(),
        (marked(final(marks)@), nats(final(next)@)) == scan_incident(
            *g,
            nat_pairs(inc@),
            inc@.len(),
            kinds_view(kinds),
            (marked(old(marks)@), nats(old(next)@)),
        ),
{
    let ghost iv = nat_pairs(inc@);
    let ghost st0 = (marked(marks@), nats(next@));
    let mut i: usize = 0;
    while i < inc.len()
        invariant
            i <= inc@.len(),
            iv == nat_pairs(inc@),
            marks@.len() == old(marks)@.len(),
            forall|j: int| 0 <= j < inc@.len() ==> (#[trigger] inc@[j]).0 < graph_edges(*g).len() && inc@[j].1 < marks@.len(),
            forall|j: int| 0 <= j < next@.len() ==> #[trigger] next@[j] < marks@.len(),
            (marked(marks@), nats(next@)) == scan_incident(*g, iv, i as nat, kinds_view(kinds), st0),
            old(next)@ == next@.take(old(next)@.len() as int),
            old(next)@.len() <= next@.len(),
            forall|j: int|
                old(next)@.len() <= j < next@.len() ==> step(*g, node, #[trigger] next@[j] as nat, outgoing, kinds_view(kinds)),
            forall|j: int|
                0 <= j < inc@.len() ==> {
                    let (e, other) = #[trigger] inc@[j];
                    if outgoing {
                        graph_edges(*g)[e as int].0 == node && graph_edges(*g)[e as int].1 == other
                    } else {
                        graph_edges(*g)[e as int].1 == node && graph_edges(*g)[e as int].0 == other
                    }
                },
        decreases inc.len() - i,
    {
        let (e, nb) = inc[i];
        assert(iv[i as int] == (e as nat, nb as nat));
        if admitted_exec(g, e, kinds) && !marks[nb] {
            let ghost before = (marked(marks@), nats(next@));
            let ghost nx = next@;
            marks.set(nb, true);
            next.push(nb);
            assert(marked(marks@) =~= before.0.insert(nb as nat));
            assert(nats(next@) =~= before.1.push(nb as nat));
            assert(next@.take(old(next)@.len() as int) =~= nx.take(old(next)@.len() as int));
            assert(step(*g, node, nb as nat, outgoing, kinds_view(kinds))) by {
                let x = inc@[i as int];
                assert(x.0 == e && x.1 == nb);
                assert(admitted(*g, e as nat, kinds_view(kinds)));
                let ee = graph_edges(*g)[e as int];
                assert(if outgoing {
                    ee.0 == node && ee.1 == nb as nat
                } else {
                    ee.1 == node && ee.0 == nb as nat
                });
            }
            assert forall|j: int| old(next)@.len() <= j < next@.len() implies step(
                *g,
                node,
                #[trigger] next@[j] as nat,
                outgoing,
                kinds_view(kinds),
            ) by {
                if j < nx.len() {
                    assert(next@[j] == nx[j]);
                }
            }
        }
        i += 1;
    }
}

/// A breadth-first step over a whole level, as [`expand`] says.
fn expand_exec(g: &CodeGraph, level: &Vec<usize>, outgoing: bool, kinds: Option<&Vec<String>>, marks: &mut Vec<bool>, next: &mut Vec<usize>)
    requires
        old(marks)@.len() == graph_nodes(*g).len(),
        forall|j: int| 0 <= j < old(next)@.len() ==> #[trigger] old(next)@[j] < old(marks)@.len(),
        forall|j: int| 0 <= j < level@.len() ==> #[trigger] level@[j] < graph_nodes(*g).len(),
    ensures
        final(marks)@.len() == old(marks)@.len(),
        forall|j: int| 0 <= j < final(next)@.len() ==> #[trigger] final(next)@[j] < final(marks)@.len(),
        (marked(final(marks)@), nats(final(next)@)) == expand(
            *g,
            nats(level@),
            level@.len(),
            outgoing,
            kinds_view(kinds),
            (marked(old(marks)@), nats(old(next)@)),
        ),
        old(next)@ == final(next)@.take(old(next)@.len() as int),
        forall|j: int|
            old(next)@.len() <= j < final(next)@.len() ==> reached_from(
                *g,
                nats(level@),
                #[trigger] final(next)@[j] as nat,
                outgoing,
                kinds_view(kinds),
            ),
{
    let ghost lv = nats(level@);
    let ghost st0 = (marked(marks@), nats(next@));
    let mut i: usize = 0;
    while i < level.len()
        invariant
            i <= level@.len(),
            lv == nats(level@),
            marks@.len() == graph_nodes(*g).len(),
            forall|j: int| 0 <= j < level@.len() ==> #[trigger] level@[j] < graph_nodes(*g).len(),
            forall|j: int| 0 <= j < next@.len() ==> #[trigger] next@[j] < marks@.len(),
            (marked(marks@), nats(next@)) == expand(*g, lv, i as nat, outgoing, kinds_view(kinds), st0),
            old(next)@ == next@.take(old(next)@.len() as int),
            old(next)@.len() <= next@.len(),
            forall|j: int|
                old(next)@.len() <= j < next@.len() ==> reached_from(*g, lv, #[trigger] next@[j] as nat, outgoing, kinds_view(kinds)),
        decreases level.len() - i,
    {
        let inc = incident(g, level[i], outgoing);
        assert(lv[i as int] == level@[i as int] as nat);
        let ghost nx = next@;
        scan_exec(g, &inc, kinds, marks, next, Ghost(level@[i as int] as nat), Ghost(outgoing));
        proof {
            assert(next@.take(old(next)@.len() as int) =~= nx.take(old(next)@.len() as int)) by {
                assert(nx =~= next@.take(nx.len() as int));
            }
            assert forall|j: int| old(next)@.len() <= j < next@.len() implies reached_from(
                *g,
                lv,
                #[trigger] next@[j] as nat,
                outgoing,
                kinds_view(kinds),
            ) by {
                if j < nx.len() {
                    assert(next@[j] == nx[j]);
                } else {
                    assert(lv.contains(lv[i as int]));
                    assert(step(*g, lv[i as int], next@[j] as nat, outgoing, kinds_view(kinds)));
                }
            }
        }
        i += 1;
    }
}

/// The breadth-first levels around `start`, as [`bfs_levels`] says.
pub fn bfs_direction(g: &CodeGraph, start: usize, max_depth: usize, outgoing: bool, kinds: Option<&Vec<String>>) -> (r: Vec<Vec<usize>>)
    requires
        start < graph_nodes(*g).len(),
    ensures
        r@.map_values(|l: Vec<usize>| nats(l@)) == bfs_levels(*g, start as nat, max_depth as nat, outgoing, kinds_view(kinds)),
        forall|i: int, j: int| 0 <= i < r@.len() && 0 <= j < r@[i]@.len() ==> r@[i]@[j] < graph_nodes(*g).len(),
        levels_reached(*g, start as nat, r@.map_values(|l: Vec<usize>| nats(l@)), outgoing, kinds_view(kinds)),
        r@.len() <= max_depth,
{
    proof {
        lemma_bfs_levels_within_depth(*g, start as nat, max_depth as nat, outgoing, kinds_view(kinds));
    }
    let n = node_count_of(g);
    let mut marks: Vec<bool> = Vec::new();
    let mut i: usize = 0;
    while i < n
        invariant
            i <= n,
            marks@.len() == i,
            forall|j: int| 0 <= j < i ==> marks@[j] == (j == start),
        decreases n - i,
    {
        marks.push(i == start);
        i += 1;
    }
    let ghost kv = kinds_view(kinds);
    let ghost goal = bfs_levels(*g, start as nat, max_depth as nat, outgoing, kv);
    let mut levels: Vec<Vec<usize>> = Vec::new();
    let mut current: Vec<usize> = vec![start];
    let mut round: usize = 0;
    let mut done = false;
    proof {
        assert(marked(marks@) =~= set![start as nat]);
        assert(nats(current@) =~= seq![start as nat]);
        assert(levels@.map_values(|l: Vec<usize>| nats(l@)) =~= Seq::<Seq<nat>>::empty());
        assert(Seq::<Seq<nat>>::empty() + goal =~= goal);
    }
    while round < max_depth && !done
        invariant
            round <= max_depth,
            n == graph_nodes(*g).len(),
            marks@.len() == n,
            kv == kinds_view(kinds),
            forall|j: int| 0 <= j < current@.len() ==> #[trigger] current@[j] < n,
            forall|i: int, j: int| 0 <= i < levels@.len() && 0 <= j < levels@[i]@.len() ==> levels@[i]@[j] < n,
            !done ==> levels@.map_values(|l: Vec<usize>| nats(l@)) + levels_from(
                *g,
                nats(current@),
                marked(marks@),
                (max_depth - round) as nat,
                outgoing,
                kv,
            ) == goal,
            done ==> levels@.map_values(|l: Vec<usize>| nats(l@)) == goal,
            levels_reached(*g, start as nat, levels@.map_values(|l: Vec<usize>| nats(l@)), outgoing, kv),
            nats(current@) == if levels@.len() == 0 {
                seq![start as nat]
            } else {
                nats(levels@.last()@)
            },
        decreases max_depth - round + if done { 0int } else { 1int },
    {
        let ghost before = levels@.map_values(|l: Vec<usize>| nats(l@));
        let ghost vis = marked(marks@);
        let ghost cur = nats(current@);
        let mut next: Vec<usize> = Vec::new();
        proof {
            assert(nats(next@) =~= Seq::<nat>::empty());
        }
        expand_exec(g, &current, outgoing, kinds, &mut marks, &mut next);
        if next.len() == 0 {
            done = true;
            assert(before + Seq::<Seq<nat>>::empty() =~= before);
        } else {
            let ghost nv = nats(next@);
            levels.push(crate::graph::traversal::copy_indices(&next));
            assert(levels@.map_values(|l: Vec<usize>| nats(l@)) =~= before.push(nv));
            proof {
                let after = levels@.map_values(|l: Vec<usize>| nats(l@));
                assert forall|k: int, j: int| 0 <= k < after.len() && 0 <= j < after[k].len() implies reached_from(
                    *g,
                    if k == 0 {
                        seq![start as nat]
                    } else {
                        after[k - 1]
                    },
                    #[trigger] after[k][j],
                    outgoing,
                    kv,
                ) by {
                    if k < before.len() {
                        assert(after[k] == before[k]);
                        if k > 0 {
                            assert(after[k - 1] == before[k - 1]);
                        }
                    } else {
                        assert(after[k] == nv);
                        assert(nv[j] == next@[j] as nat);
                        assert(reached_from(*g, cur, next@[j] as nat, outgoing, kv));
                        if k > 0 {
                            assert(after[k - 1] == before.last());
                        }
                    }
                }
            }
            assert(before + (seq![nv] + levels_from(*g, nv, marked(marks@), (max_depth - round - 1) as nat, outgoing, kv))
                =~= before.push(nv) + levels_from(*g, nv, marked(marks@), (max_depth - round - 1) as nat, outgoing, kv));
            current = next;
        }
        round += 1;
    }
    if !done {
        assert(levels_from(*g, nats(current@), marked(marks@), 0, outgoing, kv) =~= Seq::<Seq<nat>>::empty());
        assert(levels@.map_values(|l: Vec<usize>| nats(l@)) + Seq::<Seq<nat>>::empty() =~= levels@.map_values(
            |l: Vec<usize>| nats(l@),
        ));
    }
    levels
}

/// A copy of a list of node indices.
pub fn copy_indices(v: &Vec<usize>) -> (r: Vec<usize>)
    ensures
        r@ == v@,
{
    let mut r: Vec<usize> = Vec::new();
    let mut i: usize = 0;
    while i < v.len()
        invariant
            i <= v@.len(),
            r@ == v@.take(i as int),
        decreases v.len() - i,
    {
        r.push(v[i]);
        assert(v@.take(i + 1) =~= v@.take(i as int).push(v@[i as int]));
        i += 1;
    }
    assert(v@.take(v@.len() as int) =~= v@);
    r
}

/// One listed symbol: ``- `name` (kind)``.
pub open spec fn entry_line(node: GraphNode) -> Seq<char> {
    "- `"@ + shown_name(node) + "` ("@ + node.kind.name_view() + ")\n"@
}

/// The entries of a level's symbols, one line each.
pub open spec fn entries_text(g: CodeGraph, level: Seq<nat>) -> Seq<char>
    decreases level.len(),
{
    if level.len() == 0 {
        seq![]
    } else {
        entries_text(g, level.drop_last()) + entry_line(graph_nodes(g)[level.last() as int])
    }
}

/// The sections of the first `k` levels: `## Depth i`, its entries and a
/// blank line (the first level reached is depth 0); an empty level has no
/// section.
pub open spec fn levels_text(g: CodeGraph, levels: Seq<Seq<nat>>, k: nat) -> Seq<char>
    decreases k,
{
    if k == 0 || k > levels.len() {
        seq![]
    } else {
        let l = levels[k - 1];
        levels_text(g, levels, (k - 1) as nat) + if l.len() == 0 {
            Seq::<char>::empty()
        } else {
            "## Depth "@ + decimal((k - 1) as nat) + "\n\n"@ + entries_text(g, l) + "\n"@
        }
    }
}

/// A report of the levels around `start`: a `# {title} `name`` heading, then
/// the sections.
pub open spec fn levels_report(g: CodeGraph, title: Seq<char>, start: nat, levels: Seq<Seq<nat>>) -> Seq<char> {
    "# "@ + title + " `"@ + graph_nodes(g)[start as int].name@ + "`\n\n"@ + levels_text(g, levels, levels.len())
}

/// Appends the entry of the symbol at `i`.
fn push_entry(g: &CodeGraph, i: usize, out: &mut Vec<char>)
    requires
        i < graph_nodes(*g).len(),
    ensures
        final(out)@ == old(out)@ + entry_line(graph_nodes(*g)[i as int]),
{
    let node = node_at(g, i);
    append_chars(out, &chars_of("- `"));
    append_chars(out, &chars_of(node.display_name()));
    append_chars(out, &chars_of("` ("));
    append_chars(out, &chars_of(node.kind.as_str()));
    append_chars(out, &chars_of(")\n"));
}

/// Renders levels under a heading, as [`levels_report`] says.
fn render_levels(g: &CodeGraph, title: &str, start: usize, levels: &Vec<Vec<usize>>) -> (r: String)
    requires
        start < graph_nodes(*g).len(),
        forall|i: int, j: int| 0 <= i < levels@.len() && 0 <= j < levels@[i]@.len() ==> levels@[i]@[j] < graph_nodes(*g).len(),
    ensures
        r@ == levels_report(*g, title@, start as nat, levels@.map_values(|l: Vec<usize>| nats(l@))),
{
    let ghost lv = levels@.map_values(|l: Vec<usize>| nats(l@));
    let mut out = chars_of("# ");
    append_chars(&mut out, &chars_of(title));
    append_chars(&mut out, &chars_of(" `"));
    append_chars(&mut out, &chars_of(node_at(g, start).name.as_str()));
    append_chars(&mut out, &chars_of("`\n\n"));
    let ghost head = out@;
    let mut k: usize = 0;
    while k < levels.len()
        invariant
            k <= levels@.len(),
            lv == levels@.map_values(|l: Vec<usize>| nats(l@)),
            forall|i: int, j: int| 0 <= i < levels@.len() && 0 <= j < levels@[i]@.len() ==> levels@[i]@[j] < graph_nodes(*g).len(),
            out@ == head + levels_text(*g, lv, k as nat),
        decreases levels.len() - k,
    {
        let l = &levels[k];
        assert(lv[k as int] == nats(l@));
        if l.len() > 0 {
            let ghost before = out@;
            append_chars(&mut out, &chars_of("## Depth "));
            push_decimal(&mut out, k as u64);
            append_chars(&mut out, &chars_of("\n\n"));
            let ghost mid = out@;
            let mut j: usize = 0;
            assert(nats(l@).take(0) =~= Seq::<nat>::empty());
            while j < l.len()
                invariant
                    j <= l@.len(),
                    k < levels@.len(),
                    l == levels@[k as int],
                    forall|i: int, jj: int| 0 <= i < levels@.len() && 0 <= jj < levels@[i]@.len() ==> levels@[i]@[jj] < graph_nodes(*g).len(),
                    out@ == mid + entries_text(*g, nats(l@).take(j as int)),
                decreases l.len() - j,
            {
                push_entry(g, l[j], &mut out);
                assert(nats(l@).take(j + 1).drop_last() =~= nats(l@).take(j as int));
                j += 1;
            }
            assert(nats(l@).take(l@.len() as int) =~= nats(l@));
            append_chars(&mut out, &chars_of("\n"));
            assert(out@ =~= before + ("## Depth "@ + decimal(k as nat) + "\n\n"@ + entries_text(*g, nats(l@)) + "\n"@));
        } else {
            assert(out@ =~= out@ + Seq::<char>::empty());
        }
        k += 1;
    }
    string_of(&out)
}

/// Who calls `start`, level by level up to `depth` steps along incoming
/// relationships of the admitted kinds: a `# Callers of `name`` report.
pub fn get_callers(g: &CodeGraph, start: usize, depth: usize, kinds: Option<&Vec<String>>) -> (r: String)
    requires
        start < graph_nodes(*g).len(),
    ensures
        r@ == levels_report(*g, "Callers of"@, start as nat, bfs_levels(*g, start as nat, depth as nat, false, kinds_view(kinds))),
{
    let levels = bfs_direction(g, start, depth, false, kinds);
    render_levels(g, "Callers of", start, &levels)
}

/// What `start` calls, level by level up to `depth` steps along outgoing
/// relationships of the admitted kinds: a `# Callees of `name`` report.
pub fn get_callees(g: &CodeGraph, start: usize, depth: usize, kinds: Option<&Vec<String>>) -> (r: String)
    requires
        start < graph_nodes(*g).len(),
    ensures
        r@ == levels_report(*g, "Callees of"@, start as nat, bfs_levels(*g, start as nat, depth as nat, true, kinds_view(kinds))),
{
    let levels = bfs_direction(g, start, depth, true, kinds);
    render_levels(g, "Callees of", start, &levels)
}

/// Simple paths as naturals.
pub open spec fn paths_view(v: Seq<Vec<usize>>) -> Seq<Seq<nat>> {
    v.map_values(|p: Vec<usize>| nats(p@))
}

/// The depth-first search for simple paths to `target`, standing at the
/// last node of `path` (whose nodes are all visited): reaching the target
/// records the path; past `max_depth` hops, or once ten paths are found,
/// the search backs off; otherwise it tries each outgoing neighbor not on
/// the path, in petgraph's order.
pub open spec fn dfs_visit(g: CodeGraph, path: Seq<nat>, target: nat, max_depth: nat, paths: Seq<Seq<nat>>) -> Seq<Seq<nat>>
    decreases max_depth + 2 - path.len(), 1nat, 0nat,
{
    if path.len() == 0 {
        paths
    } else if path.last() == target {
        paths.push(path)
    } else if path.len() > max_depth {
        paths
    } else if paths.len() >= 10 {
        paths
    } else {
        let inc = graph_incident(g, path.last(), true);
        dfs_among(g, path, inc, inc.len(), target, max_depth, paths)
    }
}

/// [`dfs_visit`] over the first `k` listed neighbors of the path's end.
pub open spec fn dfs_among(
    g: CodeGraph,
    path: Seq<nat>,
    inc: Seq<(nat, nat)>,
    k: nat,
    target: nat,
    max_depth: nat,
    paths: Seq<Seq<nat>>,
) -> Seq<Seq<nat>>
    decreases max_depth + 2 - path.len(), 0nat, k,
{
    if k == 0 || k > inc.len() || path.len() > max_depth {
        paths
    } else {
        let p = dfs_among(g, path, inc, (k - 1) as nat, target, max_depth, paths);
        let nb = inc[k - 1].1;
        if path.contains(nb) {
            p
        } else {
            dfs_visit(g, path.push(nb), target, max_depth, p)
        }
    }
}

/// Each step of the path goes along a relationship of the graph.
pub open spec fn follows_edges(g: CodeGraph, p: Seq<nat>) -> bool {
    forall|i: int| 0 <= i < p.len() - 1 ==> joined(g, #[trigger] p[i], p[i + 1])
}

/// Some relationship of the graph goes from `a` to `b`.
pub open spec fn joined(g: CodeGraph, a: nat, b: nat) -> bool {
    exists|e: int| 0 <= e < graph_edges(g).len() && (#[trigger] graph_edges(g)[e]).0 == a && graph_edges(g)[e].1 == b
}

/// The search at the end of `path`, as [`dfs_visit`] says; `on_path` marks
/// the nodes of the path.
fn dfs_exec(
    g: &CodeGraph,
    target: usize,
    max_depth: usize,
    path: &mut Vec<usize>,
    on_path: &mut Vec<bool>,
    paths: &mut Vec<Vec<usize>>,
)
    requires
        old(path)@.len() > 0,
        old(path)@.len() <= max_depth + 1,
        old(on_path)@.len() == graph_nodes(*g).len(),
        forall|j: int| 0 <= j < old(path)@.len() ==> #[trigger] old(path)@[j] < old(on_path)@.len(),
        forall|x: int| 0 <= x < old(on_path)@.len() ==> old(on_path)@[x] == nats(old(path)@).contains(x as nat),
        forall|i: int, j: int| 0 <= i < old(paths)@.len() && 0 <= j < old(paths)@[i]@.len() ==> old(paths)@[i]@[j] < graph_nodes(*g).len(),
        follows_edges(*g, nats(old(path)@)),
        forall|i: int| 0 <= i < old(paths)@.len() ==> follows_edges(*g, #[trigger] paths_view(old(paths)@)[i]),
    ensures
        final(path)@ == old(path)@,
        final(on_path)@ == old(on_path)@,
        paths_view(final(paths)@) == dfs_visit(*g, nats(old(path)@), target as nat, max_depth as nat, paths_view(old(paths)@)),
        forall|i: int, j: int| 0 <= i < final(paths)@.len() && 0 <= j < final(paths)@[i]@.len() ==> final(paths)@[i]@[j] < graph_nodes(*g).len(),
        forall|i: int| 0 <= i < final(paths)@.len() ==> follows_edges(*g, #[trigger] paths_view(final(paths)@)[i]),
    decreases max_depth + 2 - old(path)@.len(),
{
    let ghost pv = nats(path@);
    let ghost pw0 = paths_view(paths@);
    let last = path[path.len() - 1];
    assert(pv.last() == last as nat);
    if last == target {
        let ghost before = paths_view(paths@);
        paths.push(copy_indices(path));
        assert(paths_view(paths@) =~= before.push(pv));
        assert forall|i: int| 0 <= i < paths@.len() implies follows_edges(*g, #[trigger] paths_view(paths@)[i]) by {
            if i < before.len() {
                assert(paths_view(paths@)[i] == before[i]);
            }
        }
        return;
    }
    if path.len() > max_depth || paths.len() >= 10 {
        return;
    }
    let inc = incident(g, last, true);
    let ghost iv = nat_pairs(inc@);
    let mut i: usize = 0;
    while i < inc.len()
        invariant
            i <= inc@.len(),
            iv == nat_pairs(inc@),
            iv == graph_incident(*g, last as nat, true),
            path@ == old(path)@,
            pv == nats(path@),
            pv.len() <= max_depth,
            on_path@ == old(on_path)@,
            on_path@.len() == graph_nodes(*g).len(),
            forall|j: int| 0 <= j < inc@.len() ==> (#[trigger] inc@[j]).1 < graph_nodes(*g).len(),
            forall|j: int| 0 <= j < path@.len() ==> #[trigger] path@[j] < on_path@.len(),
            forall|x: int| 0 <= x < on_path@.len() ==> on_path@[x] == pv.contains(x as nat),
            forall|a: int, b: int| 0 <= a < paths@.len() && 0 <= b < paths@[a]@.len() ==> paths@[a]@[b] < graph_nodes(*g).len(),
            paths_view(paths@) == dfs_among(*g, pv, iv, i as nat, target as nat, max_depth as nat, pw0),
            follows_edges(*g, pv),
            pv.last() == last as nat,
            forall|j: int|
                0 <= j < inc@.len() ==> {
                    let (e, other) = #[trigger] inc@[j];
                    &&& e < graph_edges(*g).len()
                    &&& graph_edges(*g)[e as int].0 == last && graph_edges(*g)[e as int].1 == other
                },
            forall|a: int| 0 <= a < paths@.len() ==> follows_edges(*g, #[trigger] paths_view(paths@)[a]),
        decreases inc.len() - i,
    {
        let nb = inc[i].1;
        assert(iv[i as int].1 == nb as nat);
        if !on_path[nb] {
            let ghost marks0 = on_path@;
            path.push(nb);
            on_path.set(nb, true);
            proof {
                assert(nats(path@) =~= pv.push(nb as nat));
                let e = inc@[i as int].0;
                assert forall|k: int| 0 <= k < nats(path@).len() - 1 implies joined(
                    *g,
                    #[trigger] nats(path@)[k],
                    nats(path@)[k + 1],
                ) by {
                    if k < pv.len() - 1 {
                        assert(nats(path@)[k] == pv[k] && nats(path@)[k + 1] == pv[k + 1]);
                        assert(joined(*g, pv[k], pv[k + 1]));
                    } else {
                        assert(graph_edges(*g)[e as int].0 == nats(path@)[k]);
                    }
                }
                assert forall|x: int| 0 <= x < on_path@.len() implies on_path@[x] == nats(path@).contains(x as nat) by {
                    if x == nb {
                        assert(nats(path@)[pv.len() as int] == nb as nat);
                    } else {
                        if pv.contains(x as nat) {
                            let w = choose|w: int| 0 <= w < pv.len() && pv[w] == x as nat;
                            assert(nats(path@)[w] == x as nat);
                        }
                        if nats(path@).contains(x as nat) {
                            let w = choose|w: int| 0 <= w < nats(path@).len() && nats(path@)[w] == x as nat;
                            assert(w < pv.len());
                            assert(pv[w] == x as nat);
                        }
                    }
                }
            }
            dfs_exec(g, target, max_depth, path, on_path, paths);
            path.pop();
            on_path.set(nb, false);
            assert(path@ =~= old(path)@);
            assert(on_path@ =~= marks0);
        }
        i += 1;
    }
}

/// The simple paths from `from` to `to` of at most `max_depth` hops along
/// outgoing relationships, as [`dfs_visit`] finds them (at most ten, the
/// search stopping further descent once ten are found).
pub fn find_all_paths(g: &CodeGraph, from: usize, to: usize, max_depth: usize) -> (r: Vec<Vec<usize>>)
    requires
        from < graph_nodes(*g).len(),
    ensures
        paths_view(r@) == dfs_visit(*g, seq![from as nat], to as nat, max_depth as nat, seq![]),
        forall|i: int, j: int| 0 <= i < r@.len() && 0 <= j < r@[i]@.len() ==> r@[i]@[j] < graph_nodes(*g).len(),
        forall|i: int| 0 <= i < r@.len() ==> follows_edges(*g, #[trigger] paths_view(r@)[i]),
{
    let n = node_count_of(g);
    let mut on_path: Vec<bool> = Vec::new();
    let mut i: usize = 0;
    while i < n
        invariant
            i <= n,
            on_path@.len() == i,
            forall|j: int| 0 <= j < i ==> on_path@[j] == (j == from),
        decreases n - i,
    {
        on_path.push(i == from);
        i += 1;
    }
    let mut path: Vec<usize> = vec![from];
    let mut paths: Vec<Vec<usize>> = Vec::new();
    proof {
        assert(nats(path@) =~= seq![from as nat]);
        assert(paths_view(paths@) =~= Seq::<Seq<nat>>::empty());
        assert forall|x: int| 0 <= x < on_path@.len() implies on_path@[x] == nats(path@).contains(x as nat) by {
            if x == from {
                assert(nats(path@)[0] == from as nat);
            }
        }
    }
    dfs_exec(g, to, max_depth, &mut path, &mut on_path, &mut paths);
    paths
}

/// The first symbol at index `i` or later that a user's `symbol` names.
pub open spec fn first_named_from(nodes: Seq<GraphNode>, symbol: Seq<char>, i: int) -> Option<nat>
    decreases nodes.len() - i,
{
    if i < 0 || i >= nodes.len() {
        None
    } else if names_symbol(nodes[i], symbol) {
        Some(i as nat)
    } else {
        first_named_from(nodes, symbol, i + 1)
    }
}

/// The first symbol a user's `symbol` names (by name or qualified name).
pub open spec fn named_node(g: CodeGraph, symbol: Seq<char>) -> Option<nat> {
    first_named_from(graph_nodes(g), symbol, 0)
}

/// The index of the first symbol `symbol` names, as [`named_node`] says.
pub fn find_symbol(g: &CodeGraph, symbol: &str) -> (r: Option<usize>)
    ensures
        match r {
            Some(i) => named_node(*g, symbol@) == Some(i as nat) && i < graph_nodes(*g).len(),
            None => named_node(*g, symbol@) is None,
        },
{
    let n = node_count_of(g);
    let mut i: usize = 0;
    while i < n
        invariant
            i <= n,
            n == graph_nodes(*g).len(),
            named_node(*g, symbol@) == first_named_from(graph_nodes(*g), symbol@, i as int),
        decreases n - i,
    {
        if node_at(g, i).matches_symbol(symbol) {
            return Some(i);
        }
        i += 1;
    }
    None
}

/// The database id of the first symbol `name` names.
pub fn find_node_index_by_name(g: &CodeGraph, name: &str) -> (r: Option<i64>)
    ensures
        match named_node(*g, name@) {
            Some(i) => r == Some(graph_nodes(*g)[i as int].db_id),
            None => r is None,
        },
{
    match find_symbol(g, name) {
        Some(i) => Some(node_at(g, i).db_id),
        None => None,
    }
}

/// The lines of a path: each symbol, with an arrow after all but the last.
pub open spec fn path_lines(g: CodeGraph, path: Seq<nat>, k: nat) -> Seq<char>
    decreases k,
{
    if k == 0 || k > path.len() {
        seq![]
    } else {
        let node = graph_nodes(g)[path[k - 1] as int];
        path_lines(g, path, (k - 1) as nat) + "- `"@ + shown_name(node) + "` ("@ + node.kind.name_view() + ")"@ + if k
            < path.len() {
            " →"@
        } else {
            Seq::<char>::empty()
        } + "\n"@
    }
}

/// The sections of the first `k` paths: `## Path i (h hops)`, its lines and a
/// blank line.
pub open spec fn paths_text(g: CodeGraph, paths: Seq<Seq<nat>>, k: nat) -> Seq<char>
    decreases k,
{
    if k == 0 || k > paths.len() {
        seq![]
    } else {
        let p = paths[k - 1];
        paths_text(g, paths, (k - 1) as nat) + "## Path "@ + decimal(k) + " ("@ + decimal((p.len() - 1) as nat) + " hops)\n\n"@
            + path_lines(g, p, p.len()) + "\n"@
    }
}

/// The report of the paths found from `from` to `to`.
pub open spec fn paths_report(g: CodeGraph, from: Seq<char>, to: Seq<char>, max_depth: nat, paths: Seq<Seq<nat>>) -> Seq<char> {
    if paths.len() == 0 {
        "No paths found from `"@ + from + "` to `"@ + to + "` within "@ + decimal(max_depth) + " hops."@
    } else {
        "# Paths from `"@ + from + "` to `"@ + to + "`\n\n"@ + paths_text(g, paths, paths.len())
    }
}

/// Renders the paths found, as [`paths_report`] says.
fn render_paths(g: &CodeGraph, from: &str, to: &str, max_depth: usize, paths: &Vec<Vec<usize>>) -> (r: String)
    requires
        forall|i: int| 0 <= i < paths@.len() ==> (#[trigger] paths@[i])@.len() > 0,
        forall|i: int, j: int| 0 <= i < paths@.len() && 0 <= j < paths@[i]@.len() ==> paths@[i]@[j] < graph_nodes(*g).len(),
    ensures
        r@ == paths_report(*g, from@, to@, max_depth as nat, paths_view(paths@)),
{
    let ghost pw = paths_view(paths@);
    if paths.len() == 0 {
        let mut out = chars_of("No paths found from `");
        append_chars(&mut out, &chars_of(from));
        append_chars(&mut out, &chars_of("` to `"));
        append_chars(&mut out, &chars_of(to));
        append_chars(&mut out, &chars_of("` within "));
        push_decimal(&mut out, max_depth as u64);
        append_chars(&mut out, &chars_of(" hops."));
        return string_of(&out);
    }
    let mut out = chars_of("# Paths from `");
    append_chars(&mut out, &chars_of(from));
    append_chars(&mut out, &chars_of("` to `"));
    append_chars(&mut out, &chars_of(to));
    append_chars(&mut out, &chars_of("`\n\n"));
    let ghost head = out@;
    let mut k: usize = 0;
    while k < paths.len()
        invariant
            k <= paths@.len(),
            pw == paths_view(paths@),
            forall|i: int| 0 <= i < paths@.len() ==> (#[trigger] paths@[i])@.len() > 0,
            forall|i: int, j: int| 0 <= i < paths@.len() && 0 <= j < paths@[i]@.len() ==> paths@[i]@[j] < graph_nodes(*g).len(),
            out@ == head + paths_text(*g, pw, k as nat),
        decreases paths.len() - k,
    {
        let p = &paths[k];
        assert(pw[k as int] == nats(p@));
        let ghost before = out@;
        append_chars(&mut out, &chars_of("## Path "));
        push_decimal(&mut out, (k + 1) as u64);
        append_chars(&mut out, &chars_of(" ("));
        push_decimal(&mut out, (p.len() - 1) as u64);
        append_chars(&mut out, &chars_of(" hops)\n\n"));
        let ghost mid = out@;
        let mut j: usize = 0;
        while j < p.len()
            invariant
                j <= p@.len(),
                p@.len() > 0,
                k < paths@.len(),
                p == paths@[k as int],
                forall|a: int, b: int| 0 <= a < paths@.len() && 0 <= b < paths@[a]@.len() ==> paths@[a]@[b] < graph_nodes(*g).len(),
                out@ == mid + path_lines(*g, nats(p@), j as nat),
            decreases p.len() - j,
        {
            let ghost b2 = out@;
            let node = node_at(g, p[j]);
            append_chars(&mut out, &chars_of("- `"));
            append_chars(&mut out, &chars_of(node.display_name()));
            append_chars(&mut out, &chars_of("` ("));
            append_chars(&mut out, &chars_of(node.kind.as_str()));
            append_chars(&mut out, &chars_of(")"));
            let ghost b3 = out@;
            if j + 1 < p.len() {
                append_chars(&mut out, &chars_of(" →"));
            } else {
                assert(b3 + Seq::<char>::empty() =~= b3);
            }
            append_chars(&mut out, &chars_of("\n"));
            assert(nats(p@)[j as int] == p@[j as int] as nat);
            j += 1;
        }
        append_chars(&mut out, &chars_of("\n"));
        k += 1;
    }
    string_of(&out)
}

/// Why a graph query failed.
#[derive(Debug)]
pub enum GraphError {
    /// A named symbol is not in the graph.
    NotFound(String),
    /// The query itself is malformed.
    Graph(String),
}

/// `prefix` followed by `s`.
fn message(prefix: &str, s: &str) -> (r: String)
    ensures
        r@ == prefix@ + s@,
{
    let mut v = chars_of(prefix);
    append_chars(&mut v, &chars_of(s));
    string_of(&v)
}

/// The paths report between two named symbols: `NotFound` when either is
/// not in the graph (the source is looked up first).
pub fn find_paths(g: &CodeGraph, from: &str, to: &str, max_depth: usize) -> (r: Result<String, GraphError>)
    ensures
        match (named_node(*g, from@), named_node(*g, to@)) {
            (Some(a), Some(b)) => r matches Ok(s) && s@ == paths_report(
                *g,
                from@,
                to@,
                max_depth as nat,
                dfs_visit(*g, seq![a], b, max_depth as nat, seq![]),
            ),
            (None, _) => r matches Err(GraphError::NotFound(m)) && m@ == "Source symbol not found: "@ + from@,
            (Some(_), None) => r matches Err(GraphError::NotFound(m)) && m@ == "Target symbol not found: "@ + to@,
        },
{
    let a = match find_symbol(g, from) {
        Some(a) => a,
        None => return Err(GraphError::NotFound(message("Source symbol not found: ", from))),
    };
    let b = match find_symbol(g, to) {
        Some(b) => b,
        None => return Err(GraphError::NotFound(message("Target symbol not found: ", to))),
    };
    let paths = find_all_paths(g, a, b, max_depth);
    proof {
        lemma_found_paths_simple(*g, a as nat, b as nat, max_depth as nat);
        assert forall|i: int| 0 <= i < paths@.len() implies (#[trigger] paths@[i])@.len() > 0 by {
            assert(paths_view(paths@)[i] == nats(paths@[i]@));
            assert(simple_path(paths_view(paths@)[i], a as nat, b as nat, max_depth as nat));
        }
    }
    Ok(render_paths(g, from, to, max_depth, &paths))
}

/// A simple path from `from` to `to` of at most `max_depth` hops.
pub open spec fn simple_path(p: Seq<nat>, from: nat, to: nat, max_depth: nat) -> bool {
    &&& p.len() > 0
    &&& p[0] == from
    &&& p.last() == to
    &&& p.len() <= max_depth + 1
    &&& forall|i: int, j: int| 0 <= i < j < p.len() ==> p[i] != p[j]
}

proof fn lemma_visit_keeps_simple(
    g: CodeGraph,
    path: Seq<nat>,
    from: nat,
    to: nat,
    max_depth: nat,
    paths: Seq<Seq<nat>>,
)
    requires
        path.len() > 0,
        path[0] == from,
        path.len() <= max_depth + 1,
        forall|i: int, j: int| 0 <= i < j < path.len() ==> path[i] != path[j],
        forall|i: int| 0 <= i < paths.len() ==> simple_path(#[trigger] paths[i], from, to, max_depth),
    ensures
        forall|i: int| 0 <= i < dfs_visit(g, path, to, max_depth, paths).len() ==> simple_path(
            #[trigger] dfs_visit(g, path, to, max_depth, paths)[i],
            from,
            to,
            max_depth,
        ),
    decreases max_depth + 2 - path.len(), 1nat, 0nat,
{
    let res = dfs_visit(g, path, to, max_depth, paths);
    if path.last() == to {
        let r = paths.push(path);
        assert(res == r);
        assert forall|i: int| 0 <= i < r.len() implies simple_path(#[trigger] r[i], from, to, max_depth) by {
            if i < paths.len() {
                assert(r[i] == paths[i]);
            }
        }
    } else if path.len() > max_depth {
        assert(res == paths);
    } else if paths.len() >= 10 {
        assert(res == paths);
    } else {
        let inc = graph_incident(g, path.last(), true);
        assert(res == dfs_among(g, path, inc, inc.len(), to, max_depth, paths));
        lemma_among_keeps_simple(g, path, inc, inc.len(), from, to, max_depth, paths);
    }
}

proof fn lemma_among_keeps_simple(
    g: CodeGraph,
    path: Seq<nat>,
    inc: Seq<(nat, nat)>,
    k: nat,
    from: nat,
    to: nat,
    max_depth: nat,
    paths: Seq<Seq<nat>>,
)
    requires
        path.len() > 0,
        path[0] == from,
        path.len() <= max_depth + 1,
        forall|i: int, j: int| 0 <= i < j < path.len() ==> path[i] != path[j],
        forall|i: int| 0 <= i < paths.len() ==> simple_path(#[trigger] paths[i], from, to, max_depth),
    ensures
        forall|i: int| 0 <= i < dfs_among(g, path, inc, k, to, max_depth, paths).len() ==> simple_path(
            #[trigger] dfs_among(g, path, inc, k, to, max_depth, paths)[i],
            from,
            to,
            max_depth,
        ),
    decreases max_depth + 2 - path.len(), 0nat, k,
{
    let res = dfs_among(g, path, inc, k, to, max_depth, paths);
    if k == 0 || k > inc.len() || path.len() > max_depth {
        assert(res == paths);
    } else {
        lemma_among_keeps_simple(g, path, inc, (k - 1) as nat, from, to, max_depth, paths);
        let p = dfs_among(g, path, inc, (k - 1) as nat, to, max_depth, paths);
        let nb = inc[k - 1].1;
        if path.contains(nb) {
            assert(res == p);
        } else {
            assert(res == dfs_visit(g, path.push(nb), to, max_depth, p));
            let q = path.push(nb);
            assert forall|i: int, j: int| 0 <= i < j < q.len() implies q[i] != q[j] by {
                if j == q.len() - 1 {
                    assert(q[j] == nb);
                    assert(q[i] == path[i]);
                }
            }
            lemma_visit_keeps_simple(g, q, from, to, max_depth, p);
        }
    }
}

/// Every path the search finds is a simple path from the source to the
/// target of at most `max_depth` hops: it starts at the source, ends at the
/// target, and visits no symbol twice.
pub proof fn lemma_found_paths_simple(g: CodeGraph, from: nat, to: nat, max_depth: nat)
    ensures
        forall|i: int| 0 <= i < dfs_visit(g, seq![from], to, max_depth, seq![]).len() ==> simple_path(
            #[trigger] dfs_visit(g, seq![from], to, max_depth, seq![])[i],
            from,
            to,
            max_depth,
        ),
{
    lemma_visit_keeps_simple(g, seq![from], from, to, max_depth, seq![]);
}

/// The callers report of the symbol at `i`.
pub open spec fn callers_report(g: CodeGraph, i: nat, depth: nat, kinds: Option<Seq<Seq<char>>>) -> Seq<char> {
    levels_report(g, "Callers of"@, i, bfs_levels(g, i, depth, false, kinds))
}

/// The callees report of the symbol at `i`.
pub open spec fn callees_report(g: CodeGraph, i: nat, depth: nat, kinds: Option<Seq<Seq<char>>>) -> Seq<char> {
    levels_report(g, "Callees of"@, i, bfs_levels(g, i, depth, true, kinds))
}

/// The impact report of a named symbol in a direction (`callers`,
/// `callees`, or `both`: the callers report, a `---` rule, the callees
/// report): `NotFound` when no symbol has that name, and an error for any
/// other direction.
pub fn impact_graph(g: &CodeGraph, symbol: &str, direction: &str, depth: usize, kinds: Option<&Vec<String>>) -> (r: Result<String, GraphError>)
    ensures
        match named_node(*g, symbol@) {
            None => r matches Err(GraphError::NotFound(m)) && m@ == "Symbol not found: "@ + symbol@,
            Some(i) => if direction@ == "callers"@ {
                r matches Ok(s) && s@ == callers_report(*g, i, depth as nat, kinds_view(kinds))
            } else if direction@ == "callees"@ {
                r matches Ok(s) && s@ == callees_report(*g, i, depth as nat, kinds_view(kinds))
            } else if direction@ == "both"@ {
                r matches Ok(s) && s@ == callers_report(*g, i, depth as nat, kinds_view(kinds)) + "\n---\n\n"@
                    + callees_report(*g, i, depth as nat, kinds_view(kinds))
            } else {
                r matches Err(GraphError::Graph(m)) && m@ == "Invalid direction: "@ + direction@
            },
        },
{
    let i = match find_symbol(g, symbol) {
        Some(i) => i,
        None => return Err(GraphError::NotFound(message("Symbol not found: ", symbol))),
    };
    match parse_direction(direction) {
        Some(ImpactDirection::Callers) => Ok(get_callers(g, i, depth, kinds)),
        Some(ImpactDirection::Callees) => Ok(get_callees(g, i, depth, kinds)),
        Some(ImpactDirection::Both) => {
            let mut v = chars_of(get_callers(g, i, depth, kinds).as_str());
            append_chars(&mut v, &chars_of("\n---\n\n"));
            append_chars(&mut v, &chars_of(get_callees(g, i, depth, kinds).as_str()));
            Ok(string_of(&v))
        },
        None => Err(GraphError::Graph(message("Invalid direction: ", direction))),
    }
}

/// Whether a relationship of a bridging kind (calls, imports,
/// implementations, extensions) runs from `a` to `b`.
pub open spec fn bridge_edge(g: CodeGraph, a: nat, b: nat) -> bool {
    exists|e: int|
        0 <= e < graph_edges(g).len() && (#[trigger] graph_edges(g)[e]).0 == a && graph_edges(g)[e].1 == b && {
            let k = graph_edges(g)[e].2;
            k == EdgeKind::Calls || k == EdgeKind::Imports || k == EdgeKind::Implements || k == EdgeKind::Extends
        }
}

/// Whether a relationship of a bridging kind runs from `a` to `b`.
fn bridge_edge_exec(g: &CodeGraph, a: usize, b: usize) -> (r: bool)
    requires
        a < graph_nodes(*g).len(),
    ensures
        r == bridge_edge(*g, a as nat, b as nat),
{
    let inc = incident(g, a, true);
    let mut i: usize = 0;
    while i < inc.len()
        invariant
            i <= inc@.len(),
            forall|j: int|
                0 <= j < inc@.len() ==> {
                    let (e, other) = #[trigger] inc@[j];
                    &&& e < graph_edges(*g).len()
                    &&& graph_edges(*g)[e as int].0 == a && graph_edges(*g)[e as int].1 == other
                },
            forall|e: int|
                0 <= e < graph_edges(*g).len() && #[trigger] graph_edges(*g)[e].0 == a ==> exists|j: int|
                    0 <= j < inc@.len() && inc@[j].0 == e,
            forall|j: int|
                0 <= j < i ==> !({
                    let k = graph_edges(*g)[(#[trigger] inc@[j]).0 as int].2;
                    inc@[j].1 == b && (k == EdgeKind::Calls || k == EdgeKind::Imports || k == EdgeKind::Implements
                        || k == EdgeKind::Extends)
                }),
        decreases inc.len() - i,
    {
        let (e, other) = inc[i];
        if other == b && crate::graph::is_bridge_edge_kind(edge_kind_at(g, e)) {
            assert(graph_edges(*g)[e as int].0 == a);
            return true;
        }
        i += 1;
    }
    proof {
        if bridge_edge(*g, a as nat, b as nat) {
            let e = choose|e: int|
                0 <= e < graph_edges(*g).len() && (#[trigger] graph_edges(*g)[e]).0 == a && graph_edges(*g)[e].1 == b && {
                    let k = graph_edges(*g)[e].2;
                    k == EdgeKind::Calls || k == EdgeKind::Imports || k == EdgeKind::Implements || k == EdgeKind::Extends
                };
            let j = choose|j: int| 0 <= j < inc@.len() && inc@[j].0 == e;
            assert(inc@[j].1 == b);
        }
    }
    false
}

/// A bridging relationship joins `a` and `b`, in either direction.
pub open spec fn bridged(g: CodeGraph, a: nat, b: nat) -> bool {
    bridge_edge(g, a, b) || bridge_edge(g, b, a)
}

/// The neighbors at one pivot in one direction, in petgraph's order: each
/// symbol joined to the pivot by a bridging relationship (in either
/// direction), not already included and not yet a candidate, becomes one.
pub open spec fn bridge_scan(
    g: CodeGraph,
    pivot: nat,
    inc: Seq<(nat, nat)>,
    k: nat,
    included: Set<i64>,
    found: Seq<i64>,
) -> Seq<i64>
    decreases k,
{
    if k == 0 || k > inc.len() {
        found
    } else {
        let s = bridge_scan(g, pivot, inc, (k - 1) as nat, included, found);
        let nb = inc[k - 1].1;
        let id = graph_nodes(g)[nb as int].db_id;
        if !included.contains(id) && !s.contains(id) && bridged(g, pivot, nb) {
            s.push(id)
        } else {
            s
        }
    }
}

/// The first `k` pivots (by database id; those not mapped to a symbol of the
/// graph skipped), each scanned outgoing then incoming.
pub open spec fn bridge_among(
    g: CodeGraph,
    ids: Map<i64, usize>,
    pivots: Seq<i64>,
    k: nat,
    included: Set<i64>,
    found: Seq<i64>,
) -> Seq<i64>
    decreases k,
{
    if k == 0 || k > pivots.len() {
        found
    } else {
        let s = bridge_among(g, ids, pivots, (k - 1) as nat, included, found);
        let p = pivots[k - 1];
        if ids.contains_key(p) && ids[p] < graph_nodes(g).len() {
            let idx = ids[p] as nat;
            let o = graph_incident(g, idx, true);
            let s1 = bridge_scan(g, idx, o, o.len(), included, s);
            let i = graph_incident(g, idx, false);
            bridge_scan(g, idx, i, i.len(), included, s1)
        } else {
            s
        }
    }
}

/// Whether a list of ids holds `x`.
fn holds_id(v: &Vec<i64>, x: i64) -> (r: bool)
    ensures
        r == v@.contains(x),
{
    let mut j: usize = 0;
    while j < v.len()
        invariant
            j <= v@.len(),
            forall|k: int| 0 <= k < j ==> v@[k] != x,
        decreases v.len() - j,
    {
        if v[j] == x {
            assert(v@[j as int] == x);
            return true;
        }
        j += 1;
    }
    false
}

/// Some symbol with id `id` is bridged to the symbol at `pivot`.
pub open spec fn id_bridged(g: CodeGraph, pivot: nat, id: i64) -> bool {
    exists|nb: nat| nb < graph_nodes(g).len() && graph_nodes(g)[nb as int].db_id == id && #[trigger] bridged(g, pivot, nb)
}

/// Some symbol with id `id` is bridged to one of the first `k` pivots that
/// map to a symbol of the graph.
pub open spec fn id_bridged_to_pivots(g: CodeGraph, ids: Map<i64, usize>, pivots: Seq<i64>, k: int, id: i64) -> bool {
    exists|q: int|
        0 <= q < k && ids.contains_key(pivots[q]) && ids[pivots[q]] < graph_nodes(g).len() && #[trigger] id_bridged(
            g,
            ids[pivots[q]] as nat,
            id,
        )
}

/// No candidate is already included, and none repeats.
pub open spec fn candidates_ok(g: CodeGraph, found: Seq<i64>, included: Set<i64>) -> bool {
    &&& forall|j: int| 0 <= j < found.len() ==> !included.contains(#[trigger] found[j])
    &&& forall|a: int, b: int| 0 <= a < b < found.len() ==> found[a] != found[b]
}

/// Records the neighbors at one pivot in one direction, as [`bridge_scan`]
/// says.
fn bridge_scan_exec(
    g: &CodeGraph,
    pivot: usize,
    outgoing: bool,
    included: &HashSet<i64>,
    found: &mut Vec<i64>,
)
    requires
        pivot < graph_nodes(*g).len(),
        candidates_ok(*g, old(found)@, included@),
    ensures
        final(found)@ == bridge_scan(
            *g,
            pivot as nat,
            graph_incident(*g, pivot as nat, outgoing),
            graph_incident(*g, pivot as nat, outgoing).len(),
            included@,
            old(found)@,
        ),
        candidates_ok(*g, final(found)@, included@),
        forall|j: int| 0 <= j < old(found)@.len() ==> final(found)@[j] == old(found)@[j],
        old(found)@.len() <= final(found)@.len(),
        forall|j: int|
            old(found)@.len() <= j < final(found)@.len() ==> id_bridged(*g, pivot as nat, #[trigger] final(found)@[j]),
        forall|e: int|
            0 <= e < graph_edges(*g).len() && (if outgoing {
                #[trigger] graph_edges(*g)[e].0 == pivot
            } else {
                graph_edges(*g)[e].1 == pivot
            }) && bridged(*g, pivot as nat, if outgoing { graph_edges(*g)[e].1 } else { graph_edges(*g)[e].0 }) ==> {
                let id = graph_nodes(*g)[(if outgoing { graph_edges(*g)[e].1 } else { graph_edges(*g)[e].0 }) as int].db_id;
                included@.contains(id) || final(found)@.contains(id)
            },
{
    broadcast use vstd::std_specs::hash::group_hash_axioms;
    let inc = incident(g, pivot, outgoing);
    let ghost iv = nat_pairs(inc@);
    let ghost f0 = found@;
    let mut i: usize = 0;
    while i < inc.len()
        invariant
            i <= inc@.len(),
            iv == nat_pairs(inc@),
            iv == graph_incident(*g, pivot as nat, outgoing),
            pivot < graph_nodes(*g).len(),
            forall|j: int|
                0 <= j < inc@.len() ==> {
                    let (e, other) = #[trigger] inc@[j];
                    &&& e < graph_edges(*g).len()
                    &&& other < graph_nodes(*g).len()
                    &&& if outgoing {
                        graph_edges(*g)[e as int].0 == pivot && graph_edges(*g)[e as int].1 == other
                    } else {
                        graph_edges(*g)[e as int].1 == pivot && graph_edges(*g)[e as int].0 == other
                    }
                },
            found@ == bridge_scan(*g, pivot as nat, iv, i as nat, included@, f0),
            candidates_ok(*g, found@, included@),
            forall|j: int| 0 <= j < f0.len() ==> found@[j] == f0[j],
            f0.len() <= found@.len(),
            forall|j: int|
                f0.len() <= j < found@.len() ==> id_bridged(*g, pivot as nat, #[trigger] found@[j]),
            forall|j: int|
                0 <= j < i ==> {
                    let nb = (#[trigger] inc@[j]).1;
                    let id = graph_nodes(*g)[nb as int].db_id;
                    bridged(*g, pivot as nat, nb as nat) ==> included@.contains(id) || found@.contains(id)
                },
        decreases inc.len() - i,
    {
        let nb = inc[i].1;
        assert(iv[i as int].1 == nb as nat);
        let id = node_at(g, nb).db_id;
        let ghost before = found@;
        if !included.contains(&id) && !holds_id(found, id) {
            let joined = bridge_edge_exec(g, pivot, nb) || bridge_edge_exec(g, nb, pivot);
            if joined {
                found.push(id);
                assert forall|j: int| 0 <= j < found@.len() - 1 implies found@.contains(#[trigger] before[j]) by {
                    assert(found@[j] == before[j]);
                }
                assert(found@[found@.len() - 1] == id);
                assert forall|j: int|
                    f0.len() <= j < found@.len() implies id_bridged(*g, pivot as nat, #[trigger] found@[j]) by {
                    if j < before.len() {
                        assert(found@[j] == before[j]);
                    } else {
                        assert(graph_nodes(*g)[nb as int].db_id == found@[j]);
                        assert(bridged(*g, pivot as nat, nb as nat));
                        assert((nb as nat) < graph_nodes(*g).len());
                    }
                }
                assert forall|j: int| 0 <= j < i + 1 implies {
                    let x = (#[trigger] inc@[j]).1;
                    let xid = graph_nodes(*g)[x as int].db_id;
                    bridged(*g, pivot as nat, x as nat) ==> included@.contains(xid) || found@.contains(xid)
                } by {
                    let x = inc@[j].1;
                    let xid = graph_nodes(*g)[x as int].db_id;
                    if j < i && before.contains(xid) {
                        let w = choose|w: int| 0 <= w < before.len() && before[w] == xid;
                        assert(found@[w] == xid);
                    }
                    if j == i {
                        assert(found@[found@.len() - 1] == xid);
                    }
                }
            }
        }
        i += 1;
    }
    proof {
        assert forall|e: int|
            0 <= e < graph_edges(*g).len() && (if outgoing {
                #[trigger] graph_edges(*g)[e].0 == pivot
            } else {
                graph_edges(*g)[e].1 == pivot
            }) && bridged(*g, pivot as nat, if outgoing { graph_edges(*g)[e].1 } else { graph_edges(*g)[e].0 }) implies {
                let id = graph_nodes(*g)[(if outgoing { graph_edges(*g)[e].1 } else { graph_edges(*g)[e].0 }) as int].db_id;
                included@.contains(id) || found@.contains(id)
            } by {
            let j = choose|j: int| 0 <= j < inc@.len() && inc@[j].0 == e;
            let x = inc@[j].1;
            assert(x == if outgoing { graph_edges(*g)[e].1 } else { graph_edges(*g)[e].0 });
        }
    }
}

/// The bridge candidates around the pivots (given by database id, in the
/// order given): neighbors, outgoing then incoming, joined to a pivot by a
/// bridging relationship in either direction and not already included,
/// each once.
pub fn bridge_candidates(g: &CodeGraph, id_map: &HashMap<i64, usize>, pivots: &Vec<i64>, included: &HashSet<i64>) -> (r: Vec<i64>)
    ensures
        r@ == bridge_among(*g, id_map@, pivots@, pivots@.len(), included@, seq![]),
        candidates_ok(*g, r@, included@),
        forall|j: int|
            0 <= j < r@.len() ==> id_bridged_to_pivots(*g, id_map@, pivots@, pivots@.len() as int, #[trigger] r@[j]),
        forall|p: int, nb: nat|
            0 <= p < pivots@.len() && id_map@.contains_key(#[trigger] pivots@[p]) && id_map@[pivots@[p]] < graph_nodes(*g).len()
                && nb < graph_nodes(*g).len() && #[trigger] bridged(*g, id_map@[pivots@[p]] as nat, nb) ==> {
                let id = graph_nodes(*g)[nb as int].db_id;
                included@.contains(id) || r@.contains(id)
            },
{
    broadcast use vstd::std_specs::hash::group_hash_axioms;
    let n = node_count_of(g);
    let mut found: Vec<i64> = Vec::new();
    let mut k: usize = 0;
    while k < pivots.len()
        invariant
            k <= pivots@.len(),
            n == graph_nodes(*g).len(),
            found@ == bridge_among(*g, id_map@, pivots@, k as nat, included@, seq![]),
            candidates_ok(*g, found@, included@),
            forall|j: int|
                0 <= j < found@.len() ==> id_bridged_to_pivots(*g, id_map@, pivots@, k as int, #[trigger] found@[j]),
            forall|p: int, nb: nat|
                0 <= p < k && id_map@.contains_key(#[trigger] pivots@[p]) && id_map@[pivots@[p]] < graph_nodes(*g).len()
                    && nb < graph_nodes(*g).len() && #[trigger] bridged(*g, id_map@[pivots@[p]] as nat, nb) ==> {
                    let id = graph_nodes(*g)[nb as int].db_id;
                    included@.contains(id) || found@.contains(id)
                },
        decreases pivots.len() - k,
    {
        let p = pivots[k];
        let ghost f0 = found@;
        match id_map.get(&p) {
            Some(idx) => {
                let idx = *idx;
                if idx < n {
                    bridge_scan_exec(g, idx, true, included, &mut found);
                    let ghost f1 = found@;
                    bridge_scan_exec(g, idx, false, included, &mut found);
                    proof {
                        let ff = found@;
                        assert(id_map@.contains_key(pivots@[k as int]) && id_map@[pivots@[k as int]] == idx);
                        assert forall|j: int| 0 <= j < f0.len() implies #[trigger] ff[j] == f0[j] by {
                            assert(f1[j] == f0[j]);
                        }
                        assert forall|x: i64| f0.contains(x) implies ff.contains(x) by {
                            let w = choose|w: int| 0 <= w < f0.len() && f0[w] == x;
                            assert(ff[w] == x);
                        }
                        assert forall|x: i64| f1.contains(x) implies ff.contains(x) by {
                            let w = choose|w: int| 0 <= w < f1.len() && f1[w] == x;
                            assert(ff[w] == x);
                        }
                        assert forall|j: int| 0 <= j < ff.len() implies id_bridged_to_pivots(*g, id_map@, pivots@, k + 1, #[trigger] ff[j]) by {
                            if j < f0.len() {
                                assert(ff[j] == f0[j]);
                                assert(id_bridged_to_pivots(*g, id_map@, pivots@, k as int, f0[j]));
                                let q = choose|q: int|
                                    0 <= q < k && id_map@.contains_key(pivots@[q]) && id_map@[pivots@[q]] < graph_nodes(*g).len()
                                        && #[trigger] id_bridged(*g, id_map@[pivots@[q]] as nat, f0[j]);
                                assert(0 <= q < k + 1);
                            } else {
                                if j < f1.len() {
                                    assert(ff[j] == f1[j]);
                                    assert(id_bridged(*g, idx as nat, f1[j]));
                                } else {
                                    assert(id_bridged(*g, idx as nat, ff[j]));
                                }
                                assert(id_bridged(*g, id_map@[pivots@[k as int]] as nat, ff[j]));
                            }
                        }
                        assert forall|q: int, nb: nat|
                            0 <= q < k + 1 && id_map@.contains_key(#[trigger] pivots@[q]) && id_map@[pivots@[q]]
                                < graph_nodes(*g).len() && nb < graph_nodes(*g).len() && #[trigger] bridged(
                                *g,
                                id_map@[pivots@[q]] as nat,
                                nb,
                            ) implies {
                            let id = graph_nodes(*g)[nb as int].db_id;
                            included@.contains(id) || ff.contains(id)
                        } by {
                            let id = graph_nodes(*g)[nb as int].db_id;
                            if q < k {
                                if f0.contains(id) {
                                }
                            } else {
                                if bridge_edge(*g, idx as nat, nb) {
                                    let e = choose|e: int|
                                        0 <= e < graph_edges(*g).len() && (#[trigger] graph_edges(*g)[e]).0 == idx as nat
                                            && graph_edges(*g)[e].1 == nb && {
                                            let kk = graph_edges(*g)[e].2;
                                            kk == EdgeKind::Calls || kk == EdgeKind::Imports || kk == EdgeKind::Implements
                                                || kk == EdgeKind::Extends
                                        };
                                    assert(graph_edges(*g)[e].0 == idx);
                                    assert(included@.contains(id) || f1.contains(id));
                                } else {
                                    let e = choose|e: int|
                                        0 <= e < graph_edges(*g).len() && (#[trigger] graph_edges(*g)[e]).0 == nb
                                            && graph_edges(*g)[e].1 == idx as nat && {
                                            let kk = graph_edges(*g)[e].2;
                                            kk == EdgeKind::Calls || kk == EdgeKind::Imports || kk == EdgeKind::Implements
                                                || kk == EdgeKind::Extends
                                        };
                                    assert(graph_edges(*g)[e].1 == idx);
                                    assert(included@.contains(id) || ff.contains(id));
                                }
                            }
                        }
                    }
                } else {
                    proof {
                        assert forall|j: int| 0 <= j < found@.len() implies id_bridged_to_pivots(*g, id_map@, pivots@, k + 1, #[trigger] found@[j]) by {
                        }
                    }
                }
            },
            None => {
                    proof {
                    assert forall|j: int| 0 <= j < found@.len() implies id_bridged_to_pivots(*g, id_map@, pivots@, k + 1, #[trigger] found@[j]) by {
                    }
                }
            },
        }
        k += 1;
    }
    found
}

/// The number of relationships of a kind.
pub open spec fn kind_count(es: Seq<(nat, nat, EdgeKind)>, k: EdgeKind) -> nat
    decreases es.len(),
{
    if es.len() == 0 {
        0
    } else {
        kind_count(es.drop_last(), k) + if es.last().2 == k {
            1nat
        } else {
            0nat
        }
    }
}

/// The relationship kinds in declaration order.
pub open spec fn all_edge_kinds() -> Seq<EdgeKind> {
    seq![
        EdgeKind::Calls,
        EdgeKind::Imports,
        EdgeKind::Implements,
        EdgeKind::Extends,
        EdgeKind::TypeRef,
        EdgeKind::Contains,
        EdgeKind::ReadsEnv,
        EdgeKind::DefinesApi,
    ]
}

/// The kinds among the first `j` that occur, with their counts.
pub open spec fn present_kinds(es: Seq<(nat, nat, EdgeKind)>, j: nat) -> Seq<(Seq<char>, nat)>
    decreases j,
{
    if j == 0 || j > 8 {
        seq![]
    } else {
        let k = all_edge_kinds()[j - 1];
        let c = kind_count(es, k);
        present_kinds(es, (j - 1) as nat) + if c > 0 {
            seq![(k.name_view(), c)]
        } else {
            Seq::<(Seq<char>, nat)>::empty()
        }
    }
}

/// More-or-equal by count.
pub open spec fn count_desc() -> spec_fn((Seq<char>, nat), (Seq<char>, nat)) -> bool {
    |x: (Seq<char>, nat), y: (Seq<char>, nat)| x.1 >= y.1
}

/// The kinds that occur with their counts, most frequent first (ties in
/// declaration order).
pub open spec fn kind_counts(g: CodeGraph) -> Seq<(Seq<char>, nat)> {
    sort_by(present_kinds(graph_edges(g), 8), count_desc())
}

/// The position of a kind in declaration order.
fn kind_slot(k: EdgeKind) -> (r: usize)
    ensures
        r < 8,
        all_edge_kinds()[r as int] == k,
{
    match k {
        EdgeKind::Calls => 0,
        EdgeKind::Imports => 1,
        EdgeKind::Implements => 2,
        EdgeKind::Extends => 3,
        EdgeKind::TypeRef => 4,
        EdgeKind::Contains => 5,
        EdgeKind::ReadsEnv => 6,
        EdgeKind::DefinesApi => 7,
    }
}

/// Count pairs as plain values.
pub open spec fn count_pairs(v: Seq<(String, usize)>) -> Seq<(Seq<char>, nat)> {
    v.map_values(|p: (String, usize)| (p.0@, p.1 as nat))
}

/// The number of relationships of each kind that occurs, most frequent
/// first, as [`kind_counts`] says.
pub fn get_edge_kind_counts(g: &CodeGraph) -> (r: Vec<(String, usize)>)
    ensures
        count_pairs(r@) == kind_counts(*g),
{
    let m = edge_count_of(g);
    let ghost es = graph_edges(*g);
    let mut counts: Vec<usize> = vec![0, 0, 0, 0, 0, 0, 0, 0];
    let mut e: usize = 0;
    while e < m
        invariant
            e <= m,
            m == es.len(),
            es == graph_edges(*g),
            counts@.len() == 8,
            forall|j: int| 0 <= j < 8 ==> counts@[j] == kind_count(es.take(e as int), all_edge_kinds()[j]),
            forall|j: int| 0 <= j < 8 ==> counts@[j] <= e,
        decreases m - e,
    {
        let slot = kind_slot(edge_kind_at(g, e));
        assert(es.take(e + 1).drop_last() =~= es.take(e as int));
        assert(es.take(e + 1).last() == es[e as int]);
        counts.set(slot, counts[slot] + 1);
        e += 1;
    }
    assert(es.take(m as int) =~= es);
    let mut present: Vec<(String, usize)> = Vec::new();
    let mut j: usize = 0;
    while j < 8
        invariant
            j <= 8,
            counts@.len() == 8,
            forall|t: int| 0 <= t < 8 ==> counts@[t] == kind_count(es, all_edge_kinds()[t]),
            count_pairs(present@) == present_kinds(es, j as nat),
        decreases 8 - j,
    {
        if counts[j] > 0 {
            let k = match j {
                0 => EdgeKind::Calls,
                1 => EdgeKind::Imports,
                2 => EdgeKind::Implements,
                3 => EdgeKind::Extends,
                4 => EdgeKind::TypeRef,
                5 => EdgeKind::Contains,
                6 => EdgeKind::ReadsEnv,
                _ => EdgeKind::DefinesApi,
            };
            assert(k == all_edge_kinds()[j as int]);
            let ghost before = count_pairs(present@);
            present.push((k.as_str().to_string(), counts[j]));
            assert(count_pairs(present@) =~= before + seq![(k.name_view(), counts@[j as int] as nat)]);
        } else {
            assert(count_pairs(present@) =~= count_pairs(present@) + Seq::<(Seq<char>, nat)>::empty());
        }
        j += 1;
    }
    let ghost pv = count_pairs(present@);
    let mut sorted: Vec<(String, usize)> = Vec::new();
    let mut i: usize = 0;
    assert(pv.take(0) =~= Seq::<(Seq<char>, nat)>::empty());
    while i < present.len()
        invariant
            i <= present@.len(),
            pv == count_pairs(present@),
            count_pairs(sorted@) == sort_by(pv.take(i as int), count_desc()),
            sorted@.len() == i,
        decreases present.len() - i,
    {
        let x = (present[i].0.clone(), present[i].1);
        let ghost xs = (x.0@, x.1 as nat);
        assert(xs == pv[i as int]);
        let ghost cur = count_pairs(sorted@);
        let mut k: usize = sorted.len();
        while k > 0 && !(sorted[k - 1].1 >= x.1)
            invariant
                k <= sorted@.len(),
                cur == count_pairs(sorted@),
                xs == (x.0@, x.1 as nat),
                forall|t: int| k <= t < sorted@.len() ==> !(count_desc())(#[trigger] cur[t], xs),
            decreases k,
        {
            k -= 1;
        }
        proof {
            lemma_insert_by_shape(cur, xs, count_desc(), k as int);
            assert(pv.take(i + 1).drop_last() =~= pv.take(i as int));
            assert(pv.take(i + 1).last() == xs);
        }
        sorted.insert(k, x);
        assert(count_pairs(sorted@) =~= cur.take(k as int) + seq![xs] + cur.skip(k as int));
        i += 1;
    }
    assert(pv.take(present@.len() as int) =~= pv);
    sorted
}


proof fn lemma_levels_from_len(
    g: CodeGraph,
    level: Seq<nat>,
    visited: Set<nat>,
    depth: nat,
    outgoing: bool,
    kinds: Option<Seq<Seq<char>>>,
)
    ensures
        levels_from(g, level, visited, depth, outgoing, kinds).len() <= depth,
    decreases depth,
{
    if depth > 0 {
        let (v, next) = expand(g, level, level.len(), outgoing, kinds, (visited, seq![]));
        lemma_levels_from_len(g, next, v, (depth - 1) as nat, outgoing, kinds);
    }
}

/// A breadth-first walk never goes deeper than asked: it returns at most
/// `max_depth` levels, and none at all for depth zero.
pub proof fn lemma_bfs_levels_within_depth(
    g: CodeGraph,
    start: nat,
    max_depth: nat,
    outgoing: bool,
    kinds: Option<Seq<Seq<char>>>,
)
    ensures
        bfs_levels(g, start, max_depth, outgoing, kinds).len() <= max_depth,
{
    lemma_levels_from_len(g, seq![start], set![start], max_depth, outgoing, kinds);
}


/// `b` extends `a`: the list of `a` is a prefix of that of `b`, each node
/// added was not visited in `a`, is visited in `b` and added once, and `b`
/// visits what `a` visits plus the added nodes only.
pub open spec fn grows(a: (Set<nat>, Seq<nat>), b: (Set<nat>, Seq<nat>)) -> bool {
    let n = a.1.len();
    &&& b.1.len() >= n
    &&& b.1.take(n as int) == a.1
    &&& forall|i: int| n <= i < b.1.len() ==> !a.0.contains(#[trigger] b.1[i]) && b.0.contains(b.1[i])
    &&& forall|i: int, j: int| n <= i < j < b.1.len() ==> #[trigger] b.1[i] != #[trigger] b.1[j]
    &&& forall|x: nat| #[trigger] a.0.contains(x) ==> b.0.contains(x)
    &&& forall|x: nat| #[trigger] b.0.contains(x) ==> a.0.contains(x) || exists|i: int| n <= i < b.1.len() && b.1[i] == x
}

proof fn lemma_grows_trans(a: (Set<nat>, Seq<nat>), b: (Set<nat>, Seq<nat>), c: (Set<nat>, Seq<nat>))
    requires
        grows(a, b),
        grows(b, c),
    ensures
        grows(a, c),
{
    let n = a.1.len();
    let m = b.1.len();
    assert(c.1.take(n as int) =~= c.1.take(m as int).take(n as int));
    assert forall|i: int| n <= i < c.1.len() implies !a.0.contains(#[trigger] c.1[i]) && c.0.contains(c.1[i]) by {
        if i < m {
            assert(c.1[i] == c.1.take(m as int)[i]);
            assert(c.1[i] == b.1[i]);
        }
    }
    assert forall|i: int, j: int| n <= i < j < c.1.len() implies #[trigger] c.1[i] != #[trigger] c.1[j] by {
        if j < m {
            assert(c.1[i] == b.1[i] && c.1[j] == b.1[j]) by {
                assert(c.1[i] == c.1.take(m as int)[i]);
                assert(c.1[j] == c.1.take(m as int)[j]);
            }
        } else if i < m {
            assert(c.1[i] == c.1.take(m as int)[i]);
            assert(b.0.contains(c.1[i]));
        }
    }
    assert forall|x: nat| #[trigger] c.0.contains(x) implies a.0.contains(x) || exists|i: int|
        n <= i < c.1.len() && c.1[i] == x by {
        if !b.0.contains(x) {
            let i = choose|i: int| m <= i < c.1.len() && c.1[i] == x;
        } else if !a.0.contains(x) {
            let i = choose|i: int| n <= i < b.1.len() && b.1[i] == x;
            assert(c.1.take(m as int)[i] == c.1[i]);
        }
    }
}

proof fn lemma_scan_grows(g: CodeGraph, inc: Seq<(nat, nat)>, k: nat, kinds: Option<Seq<Seq<char>>>, st: (Set<nat>, Seq<nat>))
    ensures
        grows(st, scan_incident(g, inc, k, kinds, st)),
    decreases k,
{
    if k == 0 || k > inc.len() {
        assert(st.1.take(st.1.len() as int) =~= st.1);
    } else {
        lemma_scan_grows(g, inc, (k - 1) as nat, kinds, st);
        let sv = scan_incident(g, inc, (k - 1) as nat, kinds, st);
        let (e, nb) = inc[k - 1];
        if admitted(g, e, kinds) && !sv.0.contains(nb) {
            let t = (sv.0.insert(nb), sv.1.push(nb));
            assert(grows(sv, t)) by {
                assert(t.1.take(sv.1.len() as int) =~= sv.1);
                assert forall|x: nat| #[trigger] t.0.contains(x) implies sv.0.contains(x) || exists|i: int|
                    sv.1.len() <= i < t.1.len() && t.1[i] == x by {
                    if x == nb {
                        assert(t.1[sv.1.len() as int] == nb);
                    }
                }
            }
            lemma_grows_trans(st, sv, t);
        }
    }
}

proof fn lemma_expand_grows(
    g: CodeGraph,
    level: Seq<nat>,
    k: nat,
    outgoing: bool,
    kinds: Option<Seq<Seq<char>>>,
    st: (Set<nat>, Seq<nat>),
)
    ensures
        grows(st, expand(g, level, k, outgoing, kinds, st)),
    decreases k,
{
    if k == 0 || k > level.len() {
        assert(st.1.take(st.1.len() as int) =~= st.1);
    } else {
        lemma_expand_grows(g, level, (k - 1) as nat, outgoing, kinds, st);
        let e = expand(g, level, (k - 1) as nat, outgoing, kinds, st);
        let inc = graph_incident(g, level[k - 1], outgoing);
        lemma_scan_grows(g, inc, inc.len(), kinds, e);
        lemma_grows_trans(st, e, scan_incident(g, inc, inc.len(), kinds, e));
    }
}

proof fn lemma_levels_from_fresh(
    g: CodeGraph,
    level: Seq<nat>,
    visited: Set<nat>,
    depth: nat,
    outgoing: bool,
    kinds: Option<Seq<Seq<char>>>,
)
    ensures
        ({
            let ls = levels_from(g, level, visited, depth, outgoing, kinds);
            &&& forall|k: int, j: int| 0 <= k < ls.len() && 0 <= j < ls[k].len() ==> !visited.contains(#[trigger] ls[k][j])
            &&& forall|k1: int, j1: int, k2: int, j2: int|
                0 <= k1 < ls.len() && 0 <= j1 < ls[k1].len() && 0 <= k2 < ls.len() && 0 <= j2 < ls[k2].len() && (k1
                    != k2 || j1 != j2) ==> #[trigger] ls[k1][j1] != #[trigger] ls[k2][j2]
        }),
    decreases depth,
{
    if depth > 0 {
        let st0 = (visited, Seq::<nat>::empty());
        let (v, next) = expand(g, level, level.len(), outgoing, kinds, st0);
        if next.len() > 0 {
            lemma_expand_grows(g, level, level.len(), outgoing, kinds, st0);
            lemma_levels_from_fresh(g, next, v, (depth - 1) as nat, outgoing, kinds);
            let rest = levels_from(g, next, v, (depth - 1) as nat, outgoing, kinds);
            let ls = levels_from(g, level, visited, depth, outgoing, kinds);
            assert(ls == seq![next] + rest);
            assert forall|k: int, j: int| 0 <= k < ls.len() && 0 <= j < ls[k].len() implies !visited.contains(
                #[trigger] ls[k][j],
            ) by {
                if k > 0 {
                    assert(ls[k] == rest[k - 1]);
                    assert(!v.contains(rest[k - 1][j]));
                } else {
                    assert(ls[0] == next);
                }
            }
            assert forall|k1: int, j1: int, k2: int, j2: int|
                0 <= k1 < ls.len() && 0 <= j1 < ls[k1].len() && 0 <= k2 < ls.len() && 0 <= j2 < ls[k2].len() && (k1
                    != k2 || j1 != j2) implies #[trigger] ls[k1][j1] != #[trigger] ls[k2][j2] by {
                if k1 == 0 && k2 == 0 {
                    assert(ls[0] == next);
                } else if k1 == 0 {
                    assert(ls[k2] == rest[k2 - 1]);
                    assert(v.contains(next[j1]));
                    assert(!v.contains(rest[k2 - 1][j2]));
                } else if k2 == 0 {
                    assert(ls[k1] == rest[k1 - 1]);
                    assert(v.contains(next[j2]));
                    assert(!v.contains(rest[k1 - 1][j1]));
                } else {
                    assert(ls[k1] == rest[k1 - 1]);
                    assert(ls[k2] == rest[k2 - 1]);
                }
            }
        }
    }
}

/// A breadth-first walk reports each node at most once, and never the node
/// it starts from.
pub proof fn lemma_bfs_levels_distinct(
    g: CodeGraph,
    start: nat,
    max_depth: nat,
    outgoing: bool,
    kinds: Option<Seq<Seq<char>>>,
)
    ensures
        ({
            let ls = bfs_levels(g, start, max_depth, outgoing, kinds);
            &&& forall|k: int, j: int| 0 <= k < ls.len() && 0 <= j < ls[k].len() ==> #[trigger] ls[k][j] != start
            &&& forall|k1: int, j1: int, k2: int, j2: int|
                0 <= k1 < ls.len() && 0 <= j1 < ls[k1].len() && 0 <= k2 < ls.len() && 0 <= j2 < ls[k2].len() && (k1
                    != k2 || j1 != j2) ==> #[trigger] ls[k1][j1] != #[trigger] ls[k2][j2]
        }),
{
    lemma_levels_from_fresh(g, seq![start], set![start], max_depth, outgoing, kinds);
    let ls = bfs_levels(g, start, max_depth, outgoing, kinds);
    assert forall|k: int, j: int| 0 <= k < ls.len() && 0 <= j < ls[k].len() implies #[trigger] ls[k][j] != start by {
        assert(!set![start].contains(ls[k][j]));
    }
}

} // verus!
