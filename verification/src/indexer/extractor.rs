//! What symbol extraction yields for one file, and the structural fingerprint
//! of that result.
use vstd::prelude::*;

use crate::text::{
    append_chars, chars_order, chars_of, order_chars, decimal, flatten, hex_digits, hex_fixed,
    insert_by, lemma_chars_order_antisymmetric, lemma_chars_order_transitive, lemma_insert_by_shape,
    lemma_sort_by_permutation, push_decimal, sort_by, string_of,
};
use crate::types::{EdgeKind, Language, NodeKind};
use vstd::utf8::encode_utf8;

verus! {

/// One extracted symbol.
#[derive(Debug, Clone)]
pub struct ExtractedNode {
    pub kind: NodeKind,
    pub name: String,
    pub qualified_name: Option<String>,
    pub signature: Option<String>,
    pub docstring: Option<String>,
    pub line_start: usize,
    pub line_end: usize,
    pub col_start: usize,
    pub col_end: usize,
    pub visibility: Option<String>,
    pub is_export: bool,
    /// Extra key/value facts about the symbol, in insertion order.
    pub metadata: Option<Vec<(String, String)>>,
}

/// One relationship between two symbols of the same file, by index.
#[derive(Debug, Clone)]
pub struct ExtractedEdge {
    pub source_idx: usize,
    pub target_idx: usize,
    pub kind: EdgeKind,
    /// Confidence in hundredths (90 stands for 0.90).
    pub confidence: u32,
    pub context: Option<String>,
}

/// A reference from a symbol to a name defined elsewhere.
#[derive(Debug, Clone)]
pub struct UnresolvedRef {
    pub source_idx: usize,
    pub target_name: String,
    pub target_qualified_name: Option<String>,
    pub edge_kind: EdgeKind,
    pub import_path: Option<String>,
    pub context: Option<String>,
}

/// Everything extracted from one file.
#[derive(Debug, Clone)]
pub struct ExtractedFile {
    pub language: Language,
    pub content_hash: String,
    pub mtime_ns: i64,
    pub size_bytes: u64,
    pub nodes: Vec<ExtractedNode>,
    pub edges: Vec<ExtractedEdge>,
    pub unresolved_refs: Vec<UnresolvedRef>,
    pub structure_hash: Option<String>,
}

/// An optional string as plain characters.
pub open spec fn opt_chars(o: Option<String>) -> Option<Seq<char>> {
    match o {
        Some(s) => Some(s@),
        None => None,
    }
}

/// Optional key/value pairs as plain characters.
pub open spec fn opt_pairs(o: Option<Vec<(String, String)>>) -> Option<Seq<(Seq<char>, Seq<char>)>> {
    match o {
        Some(v) => Some(v@.map_values(|p: (String, String)| (p.0@, p.1@))),
        None => None,
    }
}

/// An extracted symbol as plain values.
pub struct NodeView {
    pub kind: NodeKind,
    pub name: Seq<char>,
    pub qualified_name: Option<Seq<char>>,
    pub signature: Option<Seq<char>>,
    pub docstring: Option<Seq<char>>,
    pub line_start: int,
    pub line_end: int,
    pub col_start: int,
    pub col_end: int,
    pub visibility: Option<Seq<char>>,
    pub is_export: bool,
    pub metadata: Option<Seq<(Seq<char>, Seq<char>)>>,
}

impl View for ExtractedNode {
    type V = NodeView;

    open spec fn view(&self) -> NodeView {
        NodeView {
            kind: self.kind,
            name: self.name@,
            qualified_name: opt_chars(self.qualified_name),
            signature: opt_chars(self.signature),
            docstring: opt_chars(self.docstring),
            line_start: self.line_start as int,
            line_end: self.line_end as int,
            col_start: self.col_start as int,
            col_end: self.col_end as int,
            visibility: opt_chars(self.visibility),
            is_export: self.is_export,
            metadata: opt_pairs(self.metadata),
        }
    }
}

/// A relationship between two symbols as plain values.
pub struct EdgeView {
    pub source_idx: int,
    pub target_idx: int,
    pub kind: EdgeKind,
    pub confidence: int,
    pub context: Option<Seq<char>>,
}

impl View for ExtractedEdge {
    type V = EdgeView;

    open spec fn view(&self) -> EdgeView {
        EdgeView {
            source_idx: self.source_idx as int,
            target_idx: self.target_idx as int,
            kind: self.kind,
            confidence: self.confidence as int,
            context: opt_chars(self.context),
        }
    }
}

/// A reference to a name defined elsewhere as plain values.
pub struct RefView {
    pub source_idx: int,
    pub target_name: Seq<char>,
    pub target_qualified_name: Option<Seq<char>>,
    pub edge_kind: EdgeKind,
    pub import_path: Option<Seq<char>>,
    pub context: Option<Seq<char>>,
}

impl View for UnresolvedRef {
    type V = RefView;

    open spec fn view(&self) -> RefView {
        RefView {
            source_idx: self.source_idx as int,
            target_name: self.target_name@,
            target_qualified_name: opt_chars(self.target_qualified_name),
            edge_kind: self.edge_kind,
            import_path: opt_chars(self.import_path),
            context: opt_chars(self.context),
        }
    }
}

/// The plain values of a list of symbols.
pub open spec fn node_views(v: Seq<ExtractedNode>) -> Seq<NodeView> {
    v.map_values(|e: ExtractedNode| e@)
}

/// The plain values of a list of relationships.
pub open spec fn edge_views(v: Seq<ExtractedEdge>) -> Seq<EdgeView> {
    v.map_values(|e: ExtractedEdge| e@)
}

/// The plain values of a list of references.
pub open spec fn ref_views(v: Seq<UnresolvedRef>) -> Seq<RefView> {
    v.map_values(|e: UnresolvedRef| e@)
}

/// The XXH3 64-bit hash of a byte string.
pub uninterp spec fn xxh3_64_of(data: Seq<u8>) -> u64;

/// `xxhash_rust::xxh3::xxh3_64`: the XXH3 64-bit hash (seed 0) of the bytes,
/// named `xxh3_64_of`; it depends on the bytes alone.
#[verifier::external_body]
pub(crate) fn xxh3_64(data: &[u8]) -> (r: u64)
    ensures
        r == xxh3_64_of(data@),
{
    xxhash_rust::xxh3::xxh3_64(data)
}

/// (kind, name, signature or empty, first line, last line)
pub type NodeKeyView = (Seq<char>, Seq<char>, Seq<char>, int, int);

/// (source index, target index, kind)
pub type EdgeKeyView = (int, int, Seq<char>);

pub open spec fn node_key(n: ExtractedNode) -> NodeKeyView {
    (
        n.kind.name_view(),
        n.name@,
        match n.signature {
            Some(s) => s@,
            None => seq![],
        },
        n.line_start as int,
        n.line_end as int,
    )
}

pub open spec fn edge_key(e: ExtractedEdge) -> EdgeKeyView {
    (e.source_idx as int, e.target_idx as int, e.kind.name_view())
}

/// Tuple order of node keys: strings by code point, then the line numbers.
pub open spec fn node_key_le(x: NodeKeyView, y: NodeKeyView) -> bool {
    let c0 = chars_order(x.0, y.0);
    let c1 = chars_order(x.1, y.1);
    let c2 = chars_order(x.2, y.2);
    if c0 != 0 {
        c0 < 0
    } else if c1 != 0 {
        c1 < 0
    } else if c2 != 0 {
        c2 < 0
    } else if x.3 != y.3 {
        x.3 < y.3
    } else {
        x.4 <= y.4
    }
}

/// Tuple order of edge keys.
pub open spec fn edge_key_le(x: EdgeKeyView, y: EdgeKeyView) -> bool {
    if x.0 != y.0 {
        x.0 < y.0
    } else if x.1 != y.1 {
        x.1 < y.1
    } else {
        chars_order(x.2, y.2) <= 0
    }
}

pub open spec fn node_le() -> spec_fn(NodeKeyView, NodeKeyView) -> bool {
    |x: NodeKeyView, y: NodeKeyView| node_key_le(x, y)
}

pub open spec fn edge_le() -> spec_fn(EdgeKeyView, EdgeKeyView) -> bool {
    |x: EdgeKeyView, y: EdgeKeyView| edge_key_le(x, y)
}

/// `kind:name:signature:first:last;`
pub open spec fn node_record(k: NodeKeyView) -> Seq<char> {
    k.0 + seq![':'] + k.1 + seq![':'] + k.2 + seq![':'] + decimal(k.3 as nat) + seq![':'] + decimal(
        k.4 as nat,
    ) + seq![';']
}

/// `e:source:target:kind;`
pub open spec fn edge_record(k: EdgeKeyView) -> Seq<char> {
    seq!['e', ':'] + decimal(k.0 as nat) + seq![':'] + decimal(k.1 as nat) + seq![':'] + k.2 + seq![';']
}

/// The text a structure hash is computed from: the sorted node records, then
/// the sorted edge records.
pub open spec fn structure_data(nodes: Seq<ExtractedNode>, edges: Seq<ExtractedEdge>) -> Seq<char> {
    flatten(sort_by(nodes.map_values(|n: ExtractedNode| node_key(n)), node_le()).map_values(
        |k: NodeKeyView| node_record(k),
    )) + flatten(sort_by(edges.map_values(|e: ExtractedEdge| edge_key(e)), edge_le()).map_values(
        |k: EdgeKeyView| edge_record(k),
    ))
}

/// The structure hash: sixteen lowercase hex digits of the XXH3 hash of the
/// UTF-8 bytes of [`structure_data`].
pub open spec fn structure_hash(nodes: Seq<ExtractedNode>, edges: Seq<ExtractedEdge>) -> Seq<char> {
    hex_fixed(xxh3_64_of(encode_utf8(structure_data(nodes, edges))) as nat, 16)
}

struct NodeKey {
    kind: Vec<char>,
    name: Vec<char>,
    sig: Vec<char>,
    ls: usize,
    le: usize,
}

spec fn nk_view(k: NodeKey) -> NodeKeyView {
    (k.kind@, k.name@, k.sig@, k.ls as int, k.le as int)
}

struct EdgeKey {
    si: usize,
    ti: usize,
    kind: Vec<char>,
}

spec fn ek_view(k: EdgeKey) -> EdgeKeyView {
    (k.si as int, k.ti as int, k.kind@)
}

fn node_key_le_exec(x: &NodeKey, y: &NodeKey) -> (r: bool)
    ensures
        r == node_key_le(nk_view(*x), nk_view(*y)),
{
    let c0 = order_chars(&x.kind, &y.kind);
    if c0 != 0 {
        return c0 < 0;
    }
    let c1 = order_chars(&x.name, &y.name);
    if c1 != 0 {
        return c1 < 0;
    }
    let c2 = order_chars(&x.sig, &y.sig);
    if c2 != 0 {
        return c2 < 0;
    }
    if x.ls != y.ls {
        return x.ls < y.ls;
    }
    x.le <= y.le
}

fn edge_key_le_exec(x: &EdgeKey, y: &EdgeKey) -> (r: bool)
    ensures
        r == edge_key_le(ek_view(*x), ek_view(*y)),
{
    if x.si != y.si {
        return x.si < y.si;
    }
    if x.ti != y.ti {
        return x.ti < y.ti;
    }
    order_chars(&x.kind, &y.kind) <= 0
}

fn sorted_node_keys(nodes: &[ExtractedNode]) -> (r: Vec<NodeKey>)
    ensures
        r@.map_values(|k: NodeKey| nk_view(k)) == sort_by(
            nodes@.map_values(|n: ExtractedNode| node_key(n)),
            node_le(),
        ),
{
    let ghost all = nodes@.map_values(|n: ExtractedNode| node_key(n));
    let mut v: Vec<NodeKey> = Vec::new();
    let mut i: usize = 0;
    while i < nodes.len()
        invariant
            i <= nodes@.len(),
            all == nodes@.map_values(|n: ExtractedNode| node_key(n)),
            v@.map_values(|k: NodeKey| nk_view(k)) == sort_by(all.take(i as int), node_le()),
        decreases nodes@.len() - i,
    {
        let n = &nodes[i];
        let sig = match &n.signature {
            Some(s) => chars_of(s.as_str()),
            None => Vec::new(),
        };
        let x = NodeKey { kind: chars_of(n.kind.as_str()), name: chars_of(n.name.as_str()), sig, ls: n.line_start, le: n.line_end };
        assert(nk_view(x) == all[i as int]);
        assert(all.take(i as int + 1).drop_last() =~= all.take(i as int));
        let ghost s = v@.map_values(|k: NodeKey| nk_view(k));
        let mut k: usize = v.len();
        while k > 0 && !node_key_le_exec(&v[k - 1], &x)
            invariant
                k <= v@.len(),
                s == v@.map_values(|k: NodeKey| nk_view(k)),
                forall|t: int| k <= t < v@.len() ==> !node_key_le(#[trigger] s[t], nk_view(x)),
            decreases k,
        {
            k -= 1;
        }
        proof {
            assert(forall|t: int| k <= t < s.len() ==> !(node_le())(#[trigger] s[t], nk_view(x)));
            lemma_insert_by_shape(s, nk_view(x), node_le(), k as int);
        }
        let ghost xv = nk_view(x);
        v.insert(k, x);
        assert(v@.map_values(|k: NodeKey| nk_view(k)) =~= s.take(k as int) + seq![xv] + s.skip(k as int));
        i += 1;
    }
    assert(all.take(nodes@.len() as int) =~= all);
    v
}

fn sorted_edge_keys(edges: &[ExtractedEdge]) -> (r: Vec<EdgeKey>)
    ensures
        r@.map_values(|k: EdgeKey| ek_view(k)) == sort_by(
            edges@.map_values(|e: ExtractedEdge| edge_key(e)),
            edge_le(),
        ),
{
    let ghost all = edges@.map_values(|e: ExtractedEdge| edge_key(e));
    let mut v: Vec<EdgeKey> = Vec::new();
    let mut i: usize = 0;
    while i < edges.len()
        invariant
            i <= edges@.len(),
            all == edges@.map_values(|e: ExtractedEdge| edge_key(e)),
            v@.map_values(|k: EdgeKey| ek_view(k)) == sort_by(all.take(i as int), edge_le()),
        decreases edges@.len() - i,
    {
        let e = &edges[i];
        let x = EdgeKey { si: e.source_idx, ti: e.target_idx, kind: chars_of(e.kind.as_str()) };
        assert(ek_view(x) == all[i as int]);
        assert(all.take(i as int + 1).drop_last() =~= all.take(i as int));
        let ghost s = v@.map_values(|k: EdgeKey| ek_view(k));
        let mut k: usize = v.len();
        while k > 0 && !edge_key_le_exec(&v[k - 1], &x)
            invariant
                k <= v@.len(),
                s == v@.map_values(|k: EdgeKey| ek_view(k)),
                forall|t: int| k <= t < v@.len() ==> !edge_key_le(#[trigger] s[t], ek_view(x)),
            decreases k,
        {
            k -= 1;
        }
        proof {
            assert(forall|t: int| k <= t < s.len() ==> !(edge_le())(#[trigger] s[t], ek_view(x)));
            lemma_insert_by_shape(s, ek_view(x), edge_le(), k as int);
        }
        let ghost xv = ek_view(x);
        v.insert(k, x);
        assert(v@.map_values(|k: EdgeKey| ek_view(k)) =~= s.take(k as int) + seq![xv] + s.skip(k as int));
        i += 1;
    }
    assert(all.take(edges@.len() as int) =~= all);
    v
}

/// Computes a deterministic fingerprint of the structural shape of a file's
/// symbols and relationships: the records `kind:name:signature:first:last;` of
/// the nodes sorted by that tuple, followed by `e:source:target:kind;` of the
/// edges sorted likewise, hashed with XXH3 and written as sixteen lowercase
/// hex digits. Changes that keep every record (whitespace, comments) keep the
/// hash.
pub fn compute_structure_hash(nodes: &[ExtractedNode], edges: &[ExtractedEdge]) -> (r: String)
    ensures
        r@ == structure_hash(nodes@, edges@),
{
    let nk = sorted_node_keys(nodes);
    let ek = sorted_edge_keys(edges);
    let ghost nrec = sort_by(nodes@.map_values(|n: ExtractedNode| node_key(n)), node_le()).map_values(
        |k: NodeKeyView| node_record(k),
    );
    let ghost erec = sort_by(edges@.map_values(|e: ExtractedEdge| edge_key(e)), edge_le()).map_values(
        |k: EdgeKeyView| edge_record(k),
    );
    let mut data: Vec<char> = Vec::new();
    let mut i: usize = 0;
    while i < nk.len()
        invariant
            i <= nk@.len(),
            nrec == nk@.map_values(|k: NodeKey| nk_view(k)).map_values(|k: NodeKeyView| node_record(k)),
            data@ == flatten(nrec.take(i as int)),
        decreases nk@.len() - i,
    {
        let k = &nk[i];
        let ghost before = data@;
        append_chars(&mut data, &k.kind);
        data.push(':');
        append_chars(&mut data, &k.name);
        data.push(':');
        append_chars(&mut data, &k.sig);
        data.push(':');
        push_decimal(&mut data, k.ls as u64);
        data.push(':');
        push_decimal(&mut data, k.le as u64);
        data.push(';');
        assert(data@ =~= before + node_record(nk_view(*k)));
        assert(nrec.take(i as int + 1).drop_last() =~= nrec.take(i as int));
        i += 1;
    }
    assert(nrec.take(nk@.len() as int) =~= nrec);
    let ghost mid = data@;
    let mut j: usize = 0;
    while j < ek.len()
        invariant
            j <= ek@.len(),
            erec == ek@.map_values(|k: EdgeKey| ek_view(k)).map_values(|k: EdgeKeyView| edge_record(k)),
            data@ == mid + flatten(erec.take(j as int)),
        decreases ek@.len() - j,
    {
        let k = &ek[j];
        let ghost before = data@;
        data.push('e');
        data.push(':');
        push_decimal(&mut data, k.si as u64);
        data.push(':');
        push_decimal(&mut data, k.ti as u64);
        data.push(':');
        append_chars(&mut data, &k.kind);
        data.push(';');
        assert(data@ =~= before + edge_record(ek_view(*k)));
        assert(erec.take(j as int + 1).drop_last() =~= erec.take(j as int));
        assert(mid + flatten(erec.take(j as int + 1)) =~= mid + flatten(erec.take(j as int)) + edge_record(ek_view(*k)));
        j += 1;
    }
    assert(erec.take(ek@.len() as int) =~= erec);
    let s = string_of(&data);
    let h = xxh3_64(s.as_str().as_bytes());
    let hex = hex_digits(h, 16);
    string_of(&hex)
}

/// Two extraction results whose node and edge keys agree position by position
/// have the same structure hash: only kinds, names, signatures, line spans and
/// edge endpoints count, never columns, docstrings or other details.
pub proof fn lemma_structure_hash_depends_on_keys(
    n1: Seq<ExtractedNode>,
    n2: Seq<ExtractedNode>,
    e1: Seq<ExtractedEdge>,
    e2: Seq<ExtractedEdge>,
)
    requires
        n1.map_values(|n: ExtractedNode| node_key(n)) == n2.map_values(|n: ExtractedNode| node_key(n)),
        e1.map_values(|e: ExtractedEdge| edge_key(e)) == e2.map_values(|e: ExtractedEdge| edge_key(e)),
    ensures
        structure_hash(n1, e1) == structure_hash(n2, e2),
{
}

proof fn lemma_chars_order_facts(a: Seq<char>, b: Seq<char>, c: Seq<char>)
    ensures
        chars_order(a, b) == -chars_order(b, a),
        chars_order(a, b) == 0 <==> a == b,
        chars_order(b, c) == -chars_order(c, b),
        chars_order(b, c) == 0 <==> b == c,
        chars_order(a, c) == -chars_order(c, a),
        chars_order(a, c) == 0 <==> a == c,
        chars_order(a, b) < 0 && chars_order(b, c) < 0 ==> chars_order(a, c) < 0,
{
    lemma_chars_order_antisymmetric(a, b);
    lemma_chars_order_antisymmetric(b, c);
    lemma_chars_order_antisymmetric(a, c);
    if chars_order(a, b) < 0 && chars_order(b, c) < 0 {
        lemma_chars_order_transitive(a, b, c);
    }
}

/// The order on node keys is a total order.
proof fn lemma_node_le_total()
    ensures
        vstd::relations::total_ordering(node_le()),
{
    let le = node_le();
    assert forall|x: NodeKeyView, y: NodeKeyView, z: NodeKeyView|
        #[trigger] le(x, y) && #[trigger] le(y, z) implies le(x, z) by {
        lemma_chars_order_facts(x.0, y.0, z.0);
        lemma_chars_order_facts(x.1, y.1, z.1);
        lemma_chars_order_facts(x.2, y.2, z.2);
    }
    assert forall|x: NodeKeyView, y: NodeKeyView| #[trigger] le(x, y) && #[trigger] le(y, x) implies x
        == y by {
        lemma_chars_order_facts(x.0, y.0, y.0);
        lemma_chars_order_facts(x.1, y.1, y.1);
        lemma_chars_order_facts(x.2, y.2, y.2);
    }
    assert forall|x: NodeKeyView, y: NodeKeyView| #[trigger] le(x, y) || #[trigger] le(y, x) by {
        lemma_chars_order_facts(x.0, y.0, y.0);
        lemma_chars_order_facts(x.1, y.1, y.1);
        lemma_chars_order_facts(x.2, y.2, y.2);
    }
    assert forall|x: NodeKeyView| #[trigger] le(x, x) by {
        lemma_chars_order_facts(x.0, x.0, x.0);
        lemma_chars_order_facts(x.1, x.1, x.1);
        lemma_chars_order_facts(x.2, x.2, x.2);
    }
}

/// The order on edge keys is a total order.
proof fn lemma_edge_le_total()
    ensures
        vstd::relations::total_ordering(edge_le()),
{
    let le = edge_le();
    assert forall|x: EdgeKeyView, y: EdgeKeyView, z: EdgeKeyView|
        #[trigger] le(x, y) && #[trigger] le(y, z) implies le(x, z) by {
        lemma_chars_order_facts(x.2, y.2, z.2);
    }
    assert forall|x: EdgeKeyView, y: EdgeKeyView| #[trigger] le(x, y) && #[trigger] le(y, x) implies x
        == y by {
        lemma_chars_order_facts(x.2, y.2, y.2);
    }
    assert forall|x: EdgeKeyView, y: EdgeKeyView| #[trigger] le(x, y) || #[trigger] le(y, x) by {
        lemma_chars_order_facts(x.2, y.2, y.2);
    }
    assert forall|x: EdgeKeyView| #[trigger] le(x, x) by {
        lemma_chars_order_facts(x.2, x.2, x.2);
    }
}

/// The structure hash does not depend on the order in which the nodes and
/// the edges were extracted: results whose node keys and edge keys are the
/// same multisets hash alike.
pub proof fn lemma_structure_hash_order_independent(
    n1: Seq<ExtractedNode>,
    n2: Seq<ExtractedNode>,
    e1: Seq<ExtractedEdge>,
    e2: Seq<ExtractedEdge>,
)
    requires
        n1.map_values(|n: ExtractedNode| node_key(n)).to_multiset() == n2.map_values(
            |n: ExtractedNode| node_key(n),
        ).to_multiset(),
        e1.map_values(|e: ExtractedEdge| edge_key(e)).to_multiset() == e2.map_values(
            |e: ExtractedEdge| edge_key(e),
        ).to_multiset(),
    ensures
        structure_hash(n1, e1) == structure_hash(n2, e2),
{
    lemma_node_le_total();
    lemma_edge_le_total();
    lemma_sort_by_permutation(
        n1.map_values(|n: ExtractedNode| node_key(n)),
        n2.map_values(|n: ExtractedNode| node_key(n)),
        node_le(),
    );
    lemma_sort_by_permutation(
        e1.map_values(|e: ExtractedEdge| edge_key(e)),
        e2.map_values(|e: ExtractedEdge| edge_key(e)),
        edge_le(),
    );
}

} // verus!
