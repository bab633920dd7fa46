//! What the tree-walking extractors share: the symbols, relationships and
//! references they record, as plain values, and the steps that record them.
use vstd::prelude::*;

use crate::indexer::extractor::{
    edge_views, node_views, opt_chars, ref_views, EdgeView, ExtractedEdge, ExtractedNode, NodeView,
    RefView, UnresolvedRef,
};
use crate::indexer::resolver::ends_with;
use crate::indexer::scanner::is_prefix_of;
use crate::indexer::syntax::SyntaxNode;
use crate::text::{append_chars, chars_of, string_of};
use crate::types::{EdgeKind, NodeKind};

verus! {

/// What a walk has recorded so far: symbols, relationships, references.
pub type Extraction = (Seq<NodeView>, Seq<EdgeView>, Seq<RefView>);

/// The recorded lists as plain values.
pub open spec fn extraction_of(
    nodes: Seq<ExtractedNode>,
    edges: Seq<ExtractedEdge>,
    refs: Seq<UnresolvedRef>,
) -> Extraction {
    (node_views(nodes), edge_views(edges), ref_views(refs))
}

/// Every reference comes from one of the first `n` symbols.
pub open spec fn refs_within(refs: Seq<RefView>, n: int) -> bool {
    forall|i: int| 0 <= i < refs.len() ==> 0 <= #[trigger] refs[i].source_idx < n
}

/// Every relationship joins two of the first `n` symbols.
pub open spec fn edges_within(edges: Seq<EdgeView>, n: int) -> bool {
    forall|i: int|
        0 <= i < edges.len() ==> 0 <= #[trigger] edges[i].source_idx < n && 0 <= edges[i].target_idx < n
}

/// Every relationship and every reference of a record points at symbols
/// recorded in it.
pub open spec fn linked(st: Extraction) -> bool {
    edges_within(st.1, st.0.len() as int) && refs_within(st.2, st.0.len() as int)
}

/// The enclosing symbol, if any, is one of the first `n`.
pub open spec fn parent_within(parent: Option<int>, n: int) -> bool {
    match parent {
        Some(p) => 0 <= p < n,
        None => true,
    }
}

/// A symbol placed where syntax node `at` stands: lines 1-based, columns
/// 0-based, no metadata.
pub open spec fn symbol(
    kind: NodeKind,
    name: Seq<char>,
    qualified_name: Option<Seq<char>>,
    signature: Option<Seq<char>>,
    docstring: Option<Seq<char>>,
    at: SyntaxNode,
    visibility: Option<Seq<char>>,
    is_export: bool,
) -> NodeView {
    NodeView {
        kind,
        name,
        qualified_name,
        signature,
        docstring,
        line_start: at.start_row + 1,
        line_end: at.end_row + 1,
        col_start: at.start_column as int,
        col_end: at.end_column as int,
        visibility,
        is_export,
        metadata: None,
    }
}

/// The `contains` relationship from the enclosing symbol, when there is one,
/// to the symbol at `idx`, with full confidence.
pub open spec fn with_contains(edges: Seq<EdgeView>, parent: Option<int>, idx: int) -> Seq<EdgeView> {
    match parent {
        Some(p) => edges.push(
            EdgeView { source_idx: p, target_idx: idx, kind: EdgeKind::Contains, confidence: 100, context: None },
        ),
        None => edges,
    }
}

/// A reference from the symbol at `idx` to `name`.
pub open spec fn reference(
    idx: int,
    name: Seq<char>,
    kind: EdgeKind,
    import_path: Option<Seq<char>>,
    context: Option<Seq<char>>,
) -> RefView {
    RefView { source_idx: idx, target_name: name, target_qualified_name: None, edge_kind: kind, import_path, context }
}

/// `<file>::<name>`.
pub open spec fn qualify(path: Seq<char>, name: Seq<char>) -> Seq<char> {
    path + "::"@ + name
}

/// The index of the first `\n` at or after `i`, or the length.
pub open spec fn line_break_from(s: Seq<char>, i: int) -> int
    decreases s.len() - i,
{
    if i < 0 || i >= s.len() {
        s.len() as int
    } else if s[i] == '\n' {
        i
    } else {
        line_break_from(s, i + 1)
    }
}

/// The first line of a text as `str::lines` yields it (the whole text when
/// it has no line break).
pub open spec fn first_line(s: Seq<char>) -> Seq<char> {
    let e = line_break_from(s, 0);
    if e < s.len() {
        let l = s.take(e);
        if l.len() > 0 && l.last() == '\r' {
            l.drop_last()
        } else {
            l
        }
    } else {
        s
    }
}

/// Appends a symbol.
pub fn push_node(nodes: &mut Vec<ExtractedNode>, e: ExtractedNode)
    ensures
        node_views(final(nodes)@) == node_views(old(nodes)@).push(e@),
{
    nodes.push(e);
    assert(node_views(nodes@) =~= node_views(old(nodes)@).push(e@));
}

/// Appends a reference.
pub fn push_ref(refs: &mut Vec<UnresolvedRef>, r: UnresolvedRef)
    ensures
        ref_views(final(refs)@) == ref_views(old(refs)@).push(r@),
{
    refs.push(r);
    assert(ref_views(refs@) =~= ref_views(old(refs)@).push(r@));
}

/// Records the `contains` relationship from `parent`, if any, to `idx`.
pub fn push_contains(edges: &mut Vec<ExtractedEdge>, parent: Option<usize>, idx: usize)
    ensures
        edge_views(final(edges)@) == with_contains(
            edge_views(old(edges)@),
            match parent {
                Some(p) => Some(p as int),
                None => None,
            },
            idx as int,
        ),
{
    if let Some(p) = parent {
        edges.push(ExtractedEdge { source_idx: p, target_idx: idx, kind: EdgeKind::Contains, confidence: 100, context: None });
        assert(edge_views(edges@) =~= edge_views(old(edges)@).push(edges@.last()@));
    }
}

/// A symbol placed where `at` stands.
pub fn make_symbol(
    kind: NodeKind,
    name: String,
    qualified_name: Option<String>,
    signature: Option<String>,
    docstring: Option<String>,
    at: &SyntaxNode,
    visibility: Option<String>,
    is_export: bool,
) -> (e: ExtractedNode)
    requires
        at.start_row < usize::MAX,
        at.end_row < usize::MAX,
    ensures
        e@ == symbol(
            kind,
            name@,
            opt_chars(qualified_name),
            opt_chars(signature),
            opt_chars(docstring),
            *at,
            opt_chars(visibility),
            is_export,
        ),
{
    ExtractedNode {
        kind,
        name,
        qualified_name,
        signature,
        docstring,
        line_start: at.start_row + 1,
        line_end: at.end_row + 1,
        col_start: at.start_column,
        col_end: at.end_column,
        visibility,
        is_export,
        metadata: None,
    }
}

/// A reference from the symbol at `idx` to `name`.
pub fn make_ref(idx: usize, name: String, kind: EdgeKind, import_path: Option<String>, context: Option<String>) -> (r: UnresolvedRef)
    ensures
        r@ == reference(idx as int, name@, kind, opt_chars(import_path), opt_chars(context)),
{
    UnresolvedRef { source_idx: idx, target_name: name, target_qualified_name: None, edge_kind: kind, import_path, context }
}

/// `<file>::<name>`.
pub fn qualify_exec(path: &str, name: &str) -> (r: String)
    ensures
        r@ == qualify(path@, name@),
{
    let mut v = chars_of(path);
    append_chars(&mut v, &chars_of("::"));
    append_chars(&mut v, &chars_of(name));
    string_of(&v)
}

/// The first line of a text, as `str::lines` yields it.
pub fn first_line_exec(s: &str) -> (r: String)
    ensures
        r@ == first_line(s@),
{
    let v = chars_of(s);
    let mut i: usize = 0;
    while i < v.len() && v[i] != '\n'
        invariant
            i <= v@.len(),
            v@ == s@,
            line_break_from(v@, 0) == line_break_from(v@, i as int),
        decreases v.len() - i,
    {
        i += 1;
    }
    if i == v.len() {
        return string_of(&v);
    }
    let mut end = i;
    if end > 0 && v[end - 1] == '\r' {
        end -= 1;
    }
    let mut out: Vec<char> = Vec::new();
    let mut j: usize = 0;
    while j < end
        invariant
            j <= end <= i < v@.len(),
            out@ == v@.take(j as int),
        decreases end - j,
    {
        out.push(v[j]);
        assert(v@.take(j + 1) =~= v@.take(j as int).push(v@[j as int]));
        j += 1;
    }
    proof {
        let l = v@.take(i as int);
        if i > 0 && v@[i - 1] == '\r' {
            assert(out@ =~= l.drop_last());
        } else {
            assert(out@ =~= l);
        }
    }
    string_of(&out)
}

/// Whether `s` begins with `p`.
pub fn starts_with_exec(s: &str, p: &str) -> (r: bool)
    ensures
        r == is_prefix_of(p@, s@),
{
    let sv = chars_of(s);
    let pv = chars_of(p);
    if pv.len() > sv.len() {
        return false;
    }
    let mut i: usize = 0;
    while i < pv.len()
        invariant
            i <= pv@.len() <= sv@.len(),
            sv@ == s@,
            pv@ == p@,
            forall|k: int| 0 <= k < i ==> sv@[k] == pv@[k],
        decreases pv.len() - i,
    {
        if sv[i] != pv[i] {
            assert(sv@.take(pv@.len() as int)[i as int] != pv@[i as int]);
            return false;
        }
        i += 1;
    }
    assert(sv@.take(pv@.len() as int) =~= pv@);
    true
}

/// Whether `s` ends with `suffix`.
pub fn ends_with_exec(s: &str, suffix: &str) -> (r: bool)
    ensures
        r == ends_with(s@, suffix@),
{
    let sv = chars_of(s);
    let pv = chars_of(suffix);
    if pv.len() > sv.len() {
        return false;
    }
    let off = sv.len() - pv.len();
    let mut i: usize = 0;
    while i < pv.len()
        invariant
            i <= pv@.len() <= sv@.len(),
            off + pv@.len() == sv@.len(),
            sv@.len() <= usize::MAX,
            sv@ == s@,
            pv@ == suffix@,
            forall|k: int| 0 <= k < i ==> sv@[off + k] == pv@[k],
        decreases pv.len() - i,
    {
        if sv[off + i] != pv[i] {
            assert(sv@.skip(off as int)[i as int] != pv@[i as int]);
            return false;
        }
        i += 1;
    }
    assert(sv@.skip(off as int) =~= pv@);
    true
}

} // verus!
