//! HTML: external scripts and stylesheets are imports, `<style>` blocks are
//! modules.
use vstd::prelude::*;

use crate::indexer::extractor::{edge_views, node_views, ref_views, ExtractedFile, ExtractedNode, UnresolvedRef};
use crate::indexer::languages::shared::{extraction_of, linked};
use crate::indexer::syntax::{
    find_child_by_kind, first_of_kind, lemma_rows_fit_child, node_text, parse_syntax, syntax_tree,
    rows_fit, rows_fit_exec, text_of, SyntaxNode,
};
use crate::text::{append_chars, chars_of, same_text, string_of, strip_char, strip_char_exec};
use crate::types::{EdgeKind, Language, NodeKind};
use vstd::utf8::encode_utf8;

verus! {

/// What one tree node contributes: (kind, name, qualified name, first line,
/// last line, first column, last column).
pub type HtmlItem = (NodeKind, Seq<char>, Option<Seq<char>>, int, int, int, int);

/// The value of the first attribute among `attrs` named `attr`: the text of
/// its quoted value without the double and then single quotes at its ends, or
/// `None` when that attribute has no quoted value.
pub open spec fn attr_among(attrs: Seq<SyntaxNode>, src: Seq<u8>, attr: Seq<char>) -> Option<Seq<char>>
    decreases attrs.len(),
{
    if attrs.len() == 0 {
        None
    } else {
        let a = attrs[0];
        if a.kind@ == "attribute"@ && (first_of_kind(a.children@, "attribute_name"@) matches Some(nm)
            && node_text(nm, src) == attr) {
            match first_of_kind(a.children@, "quoted_attribute_value"@) {
                Some(v) => Some(strip_char(strip_char(node_text(v, src), '"'), '\'')),
                None => None,
            }
        } else {
            attr_among(attrs.drop_first(), src, attr)
        }
    }
}

/// The value of attribute `attr` in the start tag of element `n`.
pub open spec fn attribute_value(n: SyntaxNode, src: Seq<u8>, attr: Seq<char>) -> Option<Seq<char>> {
    match first_of_kind(n.children@, "start_tag"@) {
        Some(t) => attr_among(t.children@, src, attr),
        None => None,
    }
}

/// The tag name in the start tag of element `n`.
pub open spec fn tag_name(n: SyntaxNode, src: Seq<u8>) -> Option<Seq<char>> {
    match first_of_kind(n.children@, "start_tag"@) {
        Some(t) => match first_of_kind(t.children@, "tag_name"@) {
            Some(x) => Some(node_text(x, src)),
            None => None,
        },
        None => None,
    }
}

/// An item placed where node `n` stands (lines 1-based, columns 0-based).
pub open spec fn item_at(n: SyntaxNode, kind: NodeKind, name: Seq<char>, qualified: Option<Seq<char>>) -> HtmlItem {
    (kind, name, qualified, n.start_row + 1, n.end_row + 1, n.start_column as int, n.end_column as int)
}

/// What node `n` itself contributes: a script with a `src` attribute and a
/// `link` element with an `href` attribute import that path; a style block
/// is the module `<style>` of the file.
pub open spec fn own_item(n: SyntaxNode, src: Seq<u8>, path: Seq<char>) -> Option<HtmlItem> {
    if n.kind@ == "script_element"@ {
        match attribute_value(n, src, "src"@) {
            Some(s) => Some(item_at(n, NodeKind::Import, s, None)),
            None => None,
        }
    } else if n.kind@ == "style_element"@ {
        Some(item_at(n, NodeKind::Module, "<style>"@, Some(path + "::<style>"@)))
    } else if n.kind@ == "element"@ && tag_name(n, src) == Some("link"@) {
        match attribute_value(n, src, "href"@) {
            Some(h) => Some(item_at(n, NodeKind::Import, h, None)),
            None => None,
        }
    } else {
        None
    }
}

/// The items of a subtree, in pre-order.
pub open spec fn html_items(n: SyntaxNode, src: Seq<u8>, path: Seq<char>) -> Seq<HtmlItem>
    decreases n, 0nat,
{
    let own: Seq<HtmlItem> = match own_item(n, src, path) {
        Some(it) => seq![it],
        None => seq![],
    };
    own + html_items_upto(n.children@, n.children@.len(), src, path)
}

/// The items of the first `k` subtrees of `cs`, in order.
pub open spec fn html_items_upto(cs: Seq<SyntaxNode>, k: nat, src: Seq<u8>, path: Seq<char>) -> Seq<HtmlItem>
    decreases cs, k,
{
    if k == 0 || k > cs.len() {
        seq![]
    } else {
        html_items_upto(cs, (k - 1) as nat, src, path) + html_items(cs[k - 1], src, path)
    }
}

/// The references that items placed from index `base` on make: each import
/// refers to its path.
pub open spec fn item_refs(items: Seq<HtmlItem>, base: int) -> Seq<(int, Seq<char>)>
    decreases items.len(),
{
    if items.len() == 0 {
        seq![]
    } else {
        let rest = item_refs(items.drop_last(), base);
        if items.last().0 == NodeKind::Import {
            rest.push((base + items.len() - 1, items.last().1))
        } else {
            rest
        }
    }
}

/// An extracted symbol as the item says, with no other facts.
pub open spec fn node_is(e: ExtractedNode, it: HtmlItem) -> bool {
    &&& e.kind == it.0
    &&& e.name@ == it.1
    &&& match e.qualified_name {
        Some(q) => it.2 == Some(q@),
        None => it.2 is None,
    }
    &&& e.signature is None
    &&& e.docstring is None
    &&& e.line_start == it.3
    &&& e.line_end == it.4
    &&& e.col_start == it.5
    &&& e.col_end == it.6
    &&& e.visibility is None
    &&& !e.is_export
    &&& e.metadata is None
}

/// A reference as the pair says: an import of a name from the symbol at an index.
pub open spec fn ref_is(r: UnresolvedRef, p: (int, Seq<char>)) -> bool {
    &&& r.source_idx == p.0
    &&& r.target_name@ == p.1
    &&& r.target_qualified_name is None
    &&& r.edge_kind == EdgeKind::Imports
    &&& r.import_path is None
    &&& r.context is None
}

proof fn lemma_item_refs_append(a: Seq<HtmlItem>, b: Seq<HtmlItem>, base: int)
    ensures
        item_refs(a + b, base) == item_refs(a, base) + item_refs(b, base + a.len()),
    decreases b.len(),
{
    if b.len() == 0 {
        assert(a + b =~= a);
        assert(item_refs(b, base + a.len()) =~= seq![]);
        assert(item_refs(a, base) + seq![] =~= item_refs(a, base));
    } else {
        lemma_item_refs_append(a, b.drop_last(), base);
        assert((a + b).drop_last() =~= a + b.drop_last());
        assert((a + b).last() == b.last());
    }
}

/// The value of the first attribute named `attr` among the first children of
/// a start tag, from index `i` on.
fn attr_among_exec(attrs: &Vec<SyntaxNode>, source: &str, attr: &str) -> (r: Option<String>)
    ensures
        match r {
            Some(v) => attr_among(attrs@, encode_utf8(source@), attr@) == Some(v@),
            None => attr_among(attrs@, encode_utf8(source@), attr@) is None,
        },
{
    let ghost src = encode_utf8(source@);
    let mut i: usize = 0;
    assert(attrs@.skip(0) =~= attrs@);
    while i < attrs.len()
        invariant
            i <= attrs@.len(),
            src == encode_utf8(source@),
            attr_among(attrs@, src, attr@) == attr_among(attrs@.skip(i as int), src, attr@),
        decreases attrs.len() - i,
    {
        let a = &attrs[i];
        assert(attrs@.skip(i as int)[0] == attrs@[i as int]);
        assert(attrs@.skip(i as int).drop_first() =~= attrs@.skip(i as int + 1));
        if same_text(a.kind.as_str(), "attribute") {
            if let Some(nm) = find_child_by_kind(a, "attribute_name") {
                let name = text_of(nm, source);
                if same_text(name.as_str(), attr) {
                    return match find_child_by_kind(a, "quoted_attribute_value") {
                        Some(v) => {
                            let t = chars_of(text_of(v, source).as_str());
                            let once = strip_char_exec(&t, '"');
                            Some(string_of(&strip_char_exec(&once, '\'')))
                        },
                        None => None,
                    };
                }
            }
        }
        i += 1;
    }
    None
}

/// The value of attribute `attr` in the start tag of element `n`.
fn attribute_value_exec(n: &SyntaxNode, source: &str, attr: &str) -> (r: Option<String>)
    ensures
        match r {
            Some(v) => attribute_value(*n, encode_utf8(source@), attr@) == Some(v@),
            None => attribute_value(*n, encode_utf8(source@), attr@) is None,
        },
{
    match find_child_by_kind(n, "start_tag") {
        Some(t) => attr_among_exec(&t.children, source, attr),
        None => None,
    }
}

/// The tag name in the start tag of element `n`.
fn tag_name_exec(n: &SyntaxNode, source: &str) -> (r: Option<String>)
    ensures
        match r {
            Some(v) => tag_name(*n, encode_utf8(source@)) == Some(v@),
            None => tag_name(*n, encode_utf8(source@)) is None,
        },
{
    match find_child_by_kind(n, "start_tag") {
        Some(t) => match find_child_by_kind(t, "tag_name") {
            Some(x) => Some(text_of(x, source)),
            None => None,
        },
        None => None,
    }
}

/// A symbol for node `n` with the given kind, name and qualified name.
fn node_at(n: &SyntaxNode, kind: NodeKind, name: String, qualified: Option<String>) -> (e: ExtractedNode)
    requires
        n.start_row < usize::MAX,
        n.end_row < usize::MAX,
    ensures
        node_is(e, item_at(*n, kind, name@, match qualified { Some(q) => Some(q@), None => None })),
{
    ExtractedNode {
        kind,
        name,
        qualified_name: qualified,
        signature: None,
        docstring: None,
        line_start: n.start_row + 1,
        line_end: n.end_row + 1,
        col_start: n.start_column,
        col_end: n.end_column,
        visibility: None,
        is_export: false,
        metadata: None,
    }
}

/// `new` extends `old` by symbols for `items`, and `new_refs` extends
/// `old_refs` by the references those items make.
pub open spec fn extends(
    old: Seq<ExtractedNode>,
    new: Seq<ExtractedNode>,
    old_refs: Seq<UnresolvedRef>,
    new_refs: Seq<UnresolvedRef>,
    items: Seq<HtmlItem>,
) -> bool {
    let rs = item_refs(items, old.len() as int);
    &&& new.len() == old.len() + items.len()
    &&& forall|j: int| 0 <= j < old.len() ==> new[j] == old[j]
    &&& forall|j: int| 0 <= j < items.len() ==> node_is(#[trigger] new[old.len() + j], items[j])
    &&& new_refs.len() == old_refs.len() + rs.len()
    &&& forall|j: int| 0 <= j < old_refs.len() ==> new_refs[j] == old_refs[j]
    &&& forall|j: int| 0 <= j < rs.len() ==> ref_is(#[trigger] new_refs[old_refs.len() + j], rs[j])
}

proof fn lemma_extends_trans(
    a: Seq<ExtractedNode>,
    b: Seq<ExtractedNode>,
    c: Seq<ExtractedNode>,
    ra: Seq<UnresolvedRef>,
    rb: Seq<UnresolvedRef>,
    rc: Seq<UnresolvedRef>,
    i1: Seq<HtmlItem>,
    i2: Seq<HtmlItem>,
)
    requires
        extends(a, b, ra, rb, i1),
        extends(b, c, rb, rc, i2),
    ensures
        extends(a, c, ra, rc, i1 + i2),
{
    lemma_item_refs_append(i1, i2, a.len() as int);
    let r1 = item_refs(i1, a.len() as int);
    let r2 = item_refs(i2, b.len() as int);
    assert forall|j: int| 0 <= j < (i1 + i2).len() implies node_is(#[trigger] c[a.len() + j], (i1 + i2)[j]) by {
        if j < i1.len() {
            assert(b[a.len() + j] == c[a.len() + j]);
        } else {
            assert(c[b.len() + (j - i1.len())] == c[a.len() + j]);
        }
    }
    assert forall|j: int| 0 <= j < (r1 + r2).len() implies ref_is(#[trigger] rc[ra.len() + j], (r1 + r2)[j]) by {
        if j < r1.len() {
            assert(rb[ra.len() + j] == rc[ra.len() + j]);
        } else {
            assert(rc[rb.len() + (j - r1.len())] == rc[ra.len() + j]);
        }
    }
}

/// Appends the symbols and references of the subtree at `n`.
fn walk(
    n: &SyntaxNode,
    source: &str,
    path: &str,
    nodes: &mut Vec<ExtractedNode>,
    refs: &mut Vec<UnresolvedRef>,
)
    requires
        rows_fit(*n),
    ensures
        extends(old(nodes)@, final(nodes)@, old(refs)@, final(refs)@, html_items(*n, encode_utf8(source@), path@)),
    decreases n,
{
    let ghost src = encode_utf8(source@);
    let ghost n0 = nodes@;
    let ghost r0 = refs@;
    let ghost own: Seq<HtmlItem> = match own_item(*n, src, path@) {
        Some(it) => seq![it],
        None => seq![],
    };
    let kind = n.kind.as_str();
    if same_text(kind, "script_element") {
        if let Some(s) = attribute_value_exec(n, source, "src") {
            let idx = nodes.len();
            nodes.push(node_at(n, NodeKind::Import, s.clone(), None));
            refs.push(UnresolvedRef {
                source_idx: idx,
                target_name: s,
                target_qualified_name: None,
                edge_kind: EdgeKind::Imports,
                import_path: None,
                context: None,
            });
        }
    } else if same_text(kind, "style_element") {
        let mut q = chars_of(path);
        append_chars(&mut q, &chars_of("::<style>"));
        nodes.push(node_at(n, NodeKind::Module, "<style>".to_string(), Some(string_of(&q))));
    } else if same_text(kind, "element") {
        if let Some(t) = tag_name_exec(n, source) {
            if same_text(t.as_str(), "link") {
                if let Some(h) = attribute_value_exec(n, source, "href") {
                    let idx = nodes.len();
                    nodes.push(node_at(n, NodeKind::Import, h.clone(), None));
                    refs.push(UnresolvedRef {
                        source_idx: idx,
                        target_name: h,
                        target_qualified_name: None,
                        edge_kind: EdgeKind::Imports,
                        import_path: None,
                        context: None,
                    });
                }
            }
        }
    }
    proof {
        assert(item_refs(own, n0.len() as int) =~= if own.len() == 1 && own[0].0 == NodeKind::Import {
            seq![(n0.len() as int, own[0].1)]
        } else {
            seq![]
        }) by {
            reveal_with_fuel(item_refs, 2);
        }
        assert(extends(n0, nodes@, r0, refs@, own));
        assert(own + html_items_upto(n.children@, 0, src, path@) =~= own);
    }
    let mut i: usize = 0;
    while i < n.children.len()
        invariant
            i <= n.children@.len(),
            src == encode_utf8(source@),
            rows_fit(*n),
            extends(n0, nodes@, r0, refs@, own + html_items_upto(n.children@, i as nat, src, path@)),
        decreases n.children.len() - i,
    {
        let ghost mid = nodes@;
        let ghost rmid = refs@;
        proof {
            lemma_rows_fit_child(n.children@, n.children@.len(), i as int);
        }
        walk(&n.children[i], source, path, nodes, refs);
        proof {
            let before = own + html_items_upto(n.children@, i as nat, src, path@);
            let here = html_items(n.children@[i as int], src, path@);
            lemma_extends_trans(n0, mid, nodes@, r0, rmid, refs@, before, here);
            assert(before + here =~= own + html_items_upto(n.children@, (i + 1) as nat, src, path@));
        }
        i += 1;
    }
}

/// Symbol extraction for HTML documents.
pub struct HtmlExtractor;

/// What an extractor yields for a tree: the symbols for `items` and the
/// references they make, with no edges and no file facts yet.
pub open spec fn extracted_as(r: ExtractedFile, language: Language, items: Seq<HtmlItem>) -> bool {
    &&& r.language == language
    &&& r.content_hash@.len() == 0
    &&& r.mtime_ns == 0
    &&& r.size_bytes == 0
    &&& r.edges@.len() == 0
    &&& r.structure_hash is None
    &&& extends(seq![], r.nodes@, seq![], r.unresolved_refs@, items)
}

impl HtmlExtractor {
    /// The language this extractor handles.
    pub fn language(&self) -> (r: Language)
        ensures
            r == Language::Html,
    {
        Language::Html
    }

    /// Walks the tree of `source` in pre-order: each `<script src=...>` and
    /// each `<link href=...>` becomes an import symbol named after the path,
    /// with a reference to it; each `<style>` block becomes the module
    /// `<style>`, qualified `<file>::<style>`.
    pub fn extract(&self, tree: &SyntaxNode, source: &str, file_path: &str) -> (r: ExtractedFile)
        requires
            rows_fit(*tree),
        ensures
            extracted_as(r, Language::Html, html_items(*tree, encode_utf8(source@), file_path@)),
    {
        let mut nodes: Vec<ExtractedNode> = Vec::new();
        let mut refs: Vec<UnresolvedRef> = Vec::new();
        walk(tree, source, file_path, &mut nodes, &mut refs);
        ExtractedFile {
            language: Language::Html,
            content_hash: String::new(),
            mtime_ns: 0,
            size_bytes: 0,
            nodes,
            edges: Vec::new(),
            unresolved_refs: refs,
            structure_hash: None,
        }
    }
}

/// Parses an HTML text and extracts its symbols; `None` when the parser gives
/// no tree or a row too large for a line number.
pub fn extract_html(source: &str, file_path: &str) -> (r: Option<ExtractedFile>)
    ensures
        match syntax_tree(source@, Language::Html) {
            Some(t) => if rows_fit(t) {
                r matches Some(f) && extracted_as(f, Language::Html, html_items(t, encode_utf8(source@), file_path@))
            } else {
                r is None
            },
            None => r is None,
        },
        r matches Some(f) ==> linked(extraction_of(f.nodes@, f.edges@, f.unresolved_refs@)),
{
    match parse_syntax(source, Language::Html) {
        Some(t) => {
            if rows_fit_exec(&t) {
                let f = HtmlExtractor.extract(&t, source, file_path);
                proof {
                    lemma_html_extraction_linked(f, html_items(t, encode_utf8(source@), file_path@));
                }
                Some(f)
            } else {
                None
            }
        },
        None => None,
    }
}

proof fn lemma_item_refs_within(items: Seq<HtmlItem>, base: int)
    ensures
        forall|j: int|
            0 <= j < item_refs(items, base).len() ==> base <= #[trigger] item_refs(items, base)[j].0 < base
                + items.len(),
    decreases items.len(),
{
    if items.len() > 0 {
        lemma_item_refs_within(items.drop_last(), base);
        let rest = item_refs(items.drop_last(), base);
        let all = item_refs(items, base);
        assert forall|j: int| 0 <= j < all.len() implies base <= #[trigger] all[j].0 < base + items.len() by {
            if j < rest.len() {
                assert(all[j] == rest[j]);
            }
        }
    }
}

/// Every reference the HTML extractor records comes from one of the import
/// symbols it recorded.
pub proof fn lemma_html_extraction_linked(f: ExtractedFile, items: Seq<HtmlItem>)
    requires
        extracted_as(f, Language::Html, items),
    ensures
        linked(extraction_of(f.nodes@, f.edges@, f.unresolved_refs@)),
{
    lemma_item_refs_within(items, 0);
    let rs = item_refs(items, 0);
    assert forall|j: int| 0 <= j < f.unresolved_refs@.len() implies 0 <= #[trigger] ref_views(
        f.unresolved_refs@,
    )[j].source_idx < node_views(f.nodes@).len() by {
        assert(ref_is(f.unresolved_refs@[0 + j], rs[j]));
    }
}

} // verus!
