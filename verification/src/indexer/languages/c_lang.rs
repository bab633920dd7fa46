//! C: functions (with the calls in their bodies), structs, enums, typedefs,
//! top-level declarations and includes; then `getenv` reads found by pattern.
use vstd::prelude::*;

use crate::indexer::extractor::{
    edge_views, node_views, opt_chars, ref_views, EdgeView, ExtractedEdge, ExtractedFile, ExtractedNode, NodeView,
    RefView, UnresolvedRef,
};
use crate::indexer::languages::patterns::{group_texts, matches_exec, matches_of, push_group_texts};
use crate::indexer::languages::python::{dedup_chars, env_records, lemma_env_records_linked, push_env_records};
use crate::indexer::languages::shared::{
    extraction_of, first_line, first_line_exec, make_ref, make_symbol, push_contains, push_node, push_ref, qualify,
    qualify_exec, reference, starts_with_exec, symbol, with_contains, Extraction, linked, parent_within, refs_within,
};
use crate::indexer::languages::typescript::{add_symbol, opt_index};
use crate::indexer::scanner::is_prefix_of;
use crate::indexer::syntax::{
    find_child_by_kind, first_of_kind, lemma_rows_fit_child, node_text, parse_syntax, rows_fit, rows_fit_exec,
    span_text, syntax_tree, text_of, text_span, SyntaxNode,
};
use crate::text::{append_chars, chars_of, dedup, join, same_text, string_of, trim, trim_chars, views};
use crate::types::{EdgeKind, Language, NodeKind};
use vstd::utf8::encode_utf8;

verus! {

/// The first child that fills the given field.
pub open spec fn child_by_field(cs: Seq<SyntaxNode>, field: Seq<char>) -> Option<SyntaxNode>
    decreases cs.len(),
{
    if cs.len() == 0 {
        None
    } else if cs[0].field matches Some(f) && f@ == field {
        Some(cs[0])
    } else {
        child_by_field(cs.drop_first(), field)
    }
}

/// Whether a declarator kind wraps another declarator.
pub open spec fn wraps_declarator(k: Seq<char>) -> bool {
    k == "pointer_declarator"@ || k == "function_declarator"@ || k == "array_declarator"@
        || k == "parenthesized_declarator"@
}

/// The name a declarator declares: an identifier or type identifier itself,
/// or, through pointer, function, array and parenthesized declarators, the
/// first name found among the named children.
pub open spec fn declarator_name(n: SyntaxNode, src: Seq<u8>) -> Option<Seq<char>>
    decreases n, 0nat,
{
    if n.kind@ == "identifier"@ || n.kind@ == "type_identifier"@ {
        Some(node_text(n, src))
    } else if wraps_declarator(n.kind@) {
        declarator_name_among(n.children@, n.children@.len(), src)
    } else {
        None
    }
}

/// The first name found among the named nodes of the first `k` in `cs`.
pub open spec fn declarator_name_among(cs: Seq<SyntaxNode>, k: nat, src: Seq<u8>) -> Option<Seq<char>>
    decreases cs, k,
{
    if k == 0 || k > cs.len() {
        None
    } else {
        match declarator_name_among(cs, (k - 1) as nat, src) {
            Some(x) => Some(x),
            None => if cs[k - 1].named {
                declarator_name(cs[k - 1], src)
            } else {
                None
            },
        }
    }
}

/// The texts of the comments that directly precede a node (its previous
/// siblings are `before`), in source order.
pub open spec fn comment_run(before: Seq<SyntaxNode>, src: Seq<u8>) -> Seq<Seq<char>>
    decreases before.len(),
{
    if before.len() > 0 && before.last().kind@ == "comment"@ {
        comment_run(before.drop_last(), src).push(node_text(before.last(), src))
    } else {
        seq![]
    }
}

/// The comments right before a declaration, joined by line breaks.
pub open spec fn leading_comments(before: Seq<SyntaxNode>, src: Seq<u8>) -> Option<Seq<char>> {
    let run = comment_run(before, src);
    if run.len() == 0 {
        None
    } else {
        Some(join(run, "\n"@))
    }
}

/// The name a node declares through its `declarator` field.
pub open spec fn declared_name(n: SyntaxNode, src: Seq<u8>) -> Option<Seq<char>> {
    match child_by_field(n.children@, "declarator"@) {
        Some(d) => declarator_name(d, src),
        None => None,
    }
}

/// The symbol a declaration node defines: a function (signature: its text
/// up to the body, trimmed), a struct or enum (by its `name` field), a
/// typedef, or a top-level variable or constant (`const ` prefix); each
/// documented by the comments right before it.
pub open spec fn c_declared(n: SyntaxNode, top_level: bool, before: Seq<SyntaxNode>, src: Seq<u8>, path: Seq<char>) -> Option<NodeView> {
    let k = n.kind@;
    let cs = n.children@;
    let doc = leading_comments(before, src);
    if k == "function_definition"@ {
        match declared_name(n, src) {
            Some(name) => {
                let end = match first_of_kind(cs, "compound_statement"@) {
                    Some(b) => b.start_byte as int,
                    None => n.end_byte as int,
                };
                let sig = trim(span_text(n.start_byte as int, end, src));
                Some(symbol(NodeKind::Function, name, Some(qualify(path, name)), Some(sig), doc, n, None, false))
            },
            None => None,
        }
    } else if k == "struct_specifier"@ || k == "enum_specifier"@ {
        match child_by_field(cs, "name"@) {
            Some(nm) => {
                let name = node_text(nm, src);
                let kind = if k == "struct_specifier"@ {
                    NodeKind::Struct
                } else {
                    NodeKind::Enum
                };
                Some(symbol(kind, name, Some(qualify(path, name)), None, doc, n, None, false))
            },
            None => None,
        }
    } else if k == "type_definition"@ {
        match declared_name(n, src) {
            Some(name) => Some(
                symbol(NodeKind::TypeAlias, name, Some(qualify(path, name)), Some(first_line(node_text(n, src))), doc, n, None, false),
            ),
            None => None,
        }
    } else if k == "declaration"@ && top_level {
        match declared_name(n, src) {
            Some(name) => {
                let text = node_text(n, src);
                let kind = if is_prefix_of("const "@, text) {
                    NodeKind::Constant
                } else {
                    NodeKind::Variable
                };
                Some(symbol(kind, name, Some(qualify(path, name)), Some(first_line(text)), doc, n, None, false))
            },
            None => None,
        }
    } else {
        None
    }
}

/// The calls anywhere inside `n`: each refers from the symbol at `idx` to
/// the text of its `function` field.
pub open spec fn c_calls_in(n: SyntaxNode, idx: int, src: Seq<u8>, refs: Seq<RefView>) -> Seq<RefView>
    decreases n, 0nat,
{
    let r = if n.kind@ == "call_expression"@ && child_by_field(n.children@, "function"@) is Some {
        refs.push(reference(idx, node_text(child_by_field(n.children@, "function"@)->0, src), EdgeKind::Calls, None, None))
    } else {
        refs
    };
    c_calls_among(n.children@, n.children@.len(), idx, src, r)
}

/// [`c_calls_in`] over the first `k` nodes of `cs`.
pub open spec fn c_calls_among(cs: Seq<SyntaxNode>, k: nat, idx: int, src: Seq<u8>, refs: Seq<RefView>) -> Seq<RefView>
    decreases cs, k,
{
    if k == 0 || k > cs.len() {
        refs
    } else {
        c_calls_in(cs[k - 1], idx, src, c_calls_among(cs, (k - 1) as nat, idx, src, refs))
    }
}

/// An include: a symbol named after its `path` field (or its whole text)
/// that imports that name.
pub open spec fn include_into(n: SyntaxNode, src: Seq<u8>, st: Extraction) -> Extraction {
    let name = match child_by_field(n.children@, "path"@) {
        Some(p) => node_text(p, src),
        None => node_text(n, src),
    };
    let idx = st.0.len() as int;
    (
        st.0.push(symbol(NodeKind::Import, name, None, None, None, n, None, false)),
        st.1,
        st.2.push(reference(idx, name, EdgeKind::Imports, None, None)),
    )
}

/// Walks a subtree in pre-order. `top_level`: the parent is the translation
/// unit; `before`: the node's previous siblings; `parent`: the index of the
/// enclosing symbol. A function's body is not walked.
pub open spec fn c_walk(
    n: SyntaxNode,
    top_level: bool,
    before: Seq<SyntaxNode>,
    parent: Option<int>,
    src: Seq<u8>,
    path: Seq<char>,
    st: Extraction,
) -> Extraction
    decreases n, 0nat,
{
    let k = n.kind@;
    let cs = n.children@;
    let d = c_declared(n, top_level, before, src, path);
    if k == "function_definition"@ && d is Some {
        let idx = st.0.len() as int;
        let s1 = add_symbol(st, d->0, parent);
        (s1.0, s1.1, c_calls_in(n, idx, src, s1.2))
    } else {
        let s1 = if k == "preproc_include"@ {
            include_into(n, src, st)
        } else {
            match d {
                Some(v) => add_symbol(st, v, parent),
                None => st,
            }
        };
        c_walk_among(cs, cs.len(), k == "translation_unit"@, parent, src, path, s1)
    }
}

/// [`c_walk`] over the first `k` nodes of `cs`.
pub open spec fn c_walk_among(
    cs: Seq<SyntaxNode>,
    k: nat,
    top_level: bool,
    parent: Option<int>,
    src: Seq<u8>,
    path: Seq<char>,
    st: Extraction,
) -> Extraction
    decreases cs, k,
{
    if k == 0 || k > cs.len() {
        st
    } else {
        c_walk(cs[k - 1], top_level, cs.take(k - 1), parent, src, path, c_walk_among(cs, (k - 1) as nat, top_level, parent, src, path, st))
    }
}

/// `getenv("NAME")`.
pub open spec fn c_getenv_pattern() -> Seq<char> {
    "getenv\\(\\s*\"([A-Z_][A-Z0-9_]*)\"\\s*\\)"@
}

/// The first function among the symbols.
pub open spec fn first_c_function(nodes: Seq<NodeView>) -> Option<int>
    decreases nodes.len(),
{
    if nodes.len() == 0 {
        None
    } else {
        match first_c_function(nodes.drop_last()) {
            Some(i) => Some(i),
            None => if nodes.last().kind == NodeKind::Function {
                Some(nodes.len() - 1)
            } else {
                None
            },
        }
    }
}

/// The variables `getenv` reads, each once, as symbols read by the first
/// function of the file, if any.
pub open spec fn c_env_into(text: Seq<char>, st: Extraction) -> Extraction {
    env_records(dedup(group_texts(matches_of(c_getenv_pattern(), text), 1)), first_c_function(st.0), st)
}

/// Everything extracted from a C file: the walk from the root, then
/// environment variable reads.
pub open spec fn c_extraction(tree: SyntaxNode, text: Seq<char>, src: Seq<u8>, path: Seq<char>) -> Extraction {
    c_env_into(text, c_walk(tree, false, seq![], None, src, path, (seq![], seq![], seq![])))
}

/// The first child of `n` that fills the given field.
fn child_by_field_exec<'a>(n: &'a SyntaxNode, field: &str) -> (r: Option<&'a SyntaxNode>)
    ensures
        match r {
            Some(c) => child_by_field(n.children@, field@) == Some(*c),
            None => child_by_field(n.children@, field@) is None,
        },
{
    let mut i: usize = 0;
    assert(n.children@.skip(0) =~= n.children@);
    while i < n.children.len()
        invariant
            i <= n.children@.len(),
            child_by_field(n.children@, field@) == child_by_field(n.children@.skip(i as int), field@),
        decreases n.children.len() - i,
    {
        let c = &n.children[i];
        assert(n.children@.skip(i as int)[0] == n.children@[i as int]);
        assert(n.children@.skip(i as int).drop_first() =~= n.children@.skip(i as int + 1));
        if let Some(f) = &c.field {
            if same_text(f.as_str(), field) {
                return Some(c);
            }
        }
        i += 1;
    }
    None
}

proof fn lemma_name_among_extend(cs: Seq<SyntaxNode>, k: nat, m: nat, src: Seq<u8>)
    requires
        k <= m <= cs.len(),
        declarator_name_among(cs, k, src) is Some,
    ensures
        declarator_name_among(cs, m, src) == declarator_name_among(cs, k, src),
    decreases m - k,
{
    if k < m {
        lemma_name_among_extend(cs, k, (m - 1) as nat, src);
    }
}

/// The name a declarator declares, as [`declarator_name`] says.
fn declarator_name_exec(n: &SyntaxNode, source: &str) -> (r: Option<String>)
    ensures
        opt_chars(r) == declarator_name(*n, encode_utf8(source@)),
    decreases n,
{
    let ghost src = encode_utf8(source@);
    let k = n.kind.as_str();
    if same_text(k, "identifier") || same_text(k, "type_identifier") {
        return Some(text_of(n, source));
    }
    if !(same_text(k, "pointer_declarator") || same_text(k, "function_declarator") || same_text(k, "array_declarator")
        || same_text(k, "parenthesized_declarator")) {
        return None;
    }
    let mut i: usize = 0;
    while i < n.children.len()
        invariant
            i <= n.children@.len(),
            src == encode_utf8(source@),
            declarator_name_among(n.children@, i as nat, src) is None,
            wraps_declarator(n.kind@),
            !(n.kind@ == "identifier"@ || n.kind@ == "type_identifier"@),
        decreases n.children.len() - i,
    {
        let c = &n.children[i];
        if c.named {
            if let Some(x) = declarator_name_exec(c, source) {
                proof {
                    assert(declarator_name_among(n.children@, (i + 1) as nat, src) == Some(x@));
                    lemma_name_among_extend(n.children@, (i + 1) as nat, n.children@.len(), src);
                    assert(wraps_declarator(n.kind@));
                    assert(declarator_name(*n, src) == declarator_name_among(n.children@, n.children@.len(), src));
                }
                return Some(x);
            }
        }
        i += 1;
    }
    None
}

proof fn lemma_comment_run(s: Seq<SyntaxNode>, j: int, pos: int, src: Seq<u8>)
    requires
        0 <= j <= pos <= s.len(),
        forall|t: int| j <= t < pos ==> (#[trigger] s[t]).kind@ == "comment"@,
        j == 0 || s[j - 1].kind@ != "comment"@,
    ensures
        comment_run(s.take(pos), src) == Seq::new((pos - j) as nat, |t: int| node_text(s[j + t], src)),
    decreases pos - j,
{
    if pos == j {
        assert(Seq::new((pos - j) as nat, |t: int| node_text(s[j + t], src)) =~= Seq::<Seq<char>>::empty());
        if pos > 0 {
            assert(s.take(pos).last() == s[pos - 1]);
        }
    } else {
        lemma_comment_run(s, j, pos - 1, src);
        assert(s.take(pos).drop_last() =~= s.take(pos - 1));
        assert(s.take(pos).last() == s[pos - 1]);
        assert(Seq::new((pos - j) as nat, |t: int| node_text(s[j + t], src)) =~= Seq::new(
            (pos - 1 - j) as nat,
            |t: int| node_text(s[j + t], src),
        ).push(node_text(s[pos - 1], src)));
    }
}

/// The comments right before the sibling at `pos`, as [`leading_comments`]
/// says.
fn leading_comments_exec(siblings: &Vec<SyntaxNode>, pos: usize, source: &str) -> (r: Option<String>)
    requires
        pos <= siblings@.len(),
    ensures
        opt_chars(r) == leading_comments(siblings@.take(pos as int), encode_utf8(source@)),
{
    let ghost src = encode_utf8(source@);
    let mut j: usize = pos;
    while j > 0 && same_text(siblings[j - 1].kind.as_str(), "comment")
        invariant
            j <= pos <= siblings@.len(),
            forall|t: int| j <= t < pos ==> (#[trigger] siblings@[t]).kind@ == "comment"@,
        decreases j,
    {
        j -= 1;
    }
    proof {
        lemma_comment_run(siblings@, j as int, pos as int, src);
    }
    if j == pos {
        return None;
    }
    let mut texts: Vec<Vec<char>> = Vec::new();
    let mut t: usize = j;
    while t < pos
        invariant
            j <= t <= pos <= siblings@.len(),
            src == encode_utf8(source@),
            views(texts@) == Seq::new((t - j) as nat, |u: int| node_text(siblings@[j + u], src)),
        decreases pos - t,
    {
        let ghost before = views(texts@);
        texts.push(chars_of(text_of(&siblings[t], source).as_str()));
        assert(views(texts@) =~= before.push(node_text(siblings@[t as int], src)));
        assert(views(texts@) =~= Seq::new((t + 1 - j) as nat, |u: int| node_text(siblings@[j + u], src)));
        t += 1;
    }
    Some(string_of(&crate::text::join_chars(&texts, &chars_of("\n"))))
}

/// The name a node declares through its `declarator` field.
fn declared_name_exec(n: &SyntaxNode, source: &str) -> (r: Option<String>)
    ensures
        opt_chars(r) == declared_name(*n, encode_utf8(source@)),
{
    match child_by_field_exec(n, "declarator") {
        Some(d) => declarator_name_exec(d, source),
        None => None,
    }
}

/// The symbol a declaration node defines, as [`c_declared`] says.
fn c_declared_exec(
    n: &SyntaxNode,
    top_level: bool,
    siblings: &Vec<SyntaxNode>,
    pos: usize,
    source: &str,
    path: &str,
) -> (r: Option<ExtractedNode>)
    requires
        n.start_row < usize::MAX,
        n.end_row < usize::MAX,
        pos <= siblings@.len(),
    ensures
        match r {
            Some(e) => c_declared(*n, top_level, siblings@.take(pos as int), encode_utf8(source@), path@) == Some(e@),
            None => c_declared(*n, top_level, siblings@.take(pos as int), encode_utf8(source@), path@) is None,
        },
{
    let k = n.kind.as_str();
    if same_text(k, "function_definition") {
        let name = match declared_name_exec(n, source) {
            Some(x) => x,
            None => return None,
        };
        let end = match find_child_by_kind(n, "compound_statement") {
            Some(b) => b.start_byte,
            None => n.end_byte,
        };
        let sig = trim_chars(&chars_of(text_span(source, n.start_byte, end).as_str()));
        let q = qualify_exec(path, name.as_str());
        let doc = leading_comments_exec(siblings, pos, source);
        return Some(make_symbol(NodeKind::Function, name, Some(q), Some(string_of(&sig)), doc, n, None, false));
    }
    let is_struct = same_text(k, "struct_specifier");
    if is_struct || same_text(k, "enum_specifier") {
        let nm = match child_by_field_exec(n, "name") {
            Some(x) => x,
            None => return None,
        };
        let name = text_of(nm, source);
        let kind = if is_struct {
            NodeKind::Struct
        } else {
            NodeKind::Enum
        };
        let q = qualify_exec(path, name.as_str());
        let doc = leading_comments_exec(siblings, pos, source);
        return Some(make_symbol(kind, name, Some(q), None, doc, n, None, false));
    }
    if same_text(k, "type_definition") {
        let name = match declared_name_exec(n, source) {
            Some(x) => x,
            None => return None,
        };
        let q = qualify_exec(path, name.as_str());
        let sig = first_line_exec(text_of(n, source).as_str());
        let doc = leading_comments_exec(siblings, pos, source);
        return Some(make_symbol(NodeKind::TypeAlias, name, Some(q), Some(sig), doc, n, None, false));
    }
    if same_text(k, "declaration") && top_level {
        let name = match declared_name_exec(n, source) {
            Some(x) => x,
            None => return None,
        };
        let text = text_of(n, source);
        let kind = if starts_with_exec(text.as_str(), "const ") {
            NodeKind::Constant
        } else {
            NodeKind::Variable
        };
        let q = qualify_exec(path, name.as_str());
        let sig = first_line_exec(text.as_str());
        let doc = leading_comments_exec(siblings, pos, source);
        return Some(make_symbol(kind, name, Some(q), Some(sig), doc, n, None, false));
    }
    None
}

/// Records the calls inside `n`, as [`c_calls_in`] says.
fn c_calls_in_exec(n: &SyntaxNode, idx: usize, source: &str, refs: &mut Vec<UnresolvedRef>)
    ensures
        ref_views(final(refs)@) == c_calls_in(*n, idx as int, encode_utf8(source@), ref_views(old(refs)@)),
    decreases n,
{
    let ghost src = encode_utf8(source@);
    if same_text(n.kind.as_str(), "call_expression") {
        if let Some(f) = child_by_field_exec(n, "function") {
            push_ref(refs, make_ref(idx, text_of(f, source), EdgeKind::Calls, None, None));
        }
    }
    let ghost r0 = ref_views(refs@);
    let mut i: usize = 0;
    while i < n.children.len()
        invariant
            i <= n.children@.len(),
            src == encode_utf8(source@),
            ref_views(refs@) == c_calls_among(n.children@, i as nat, idx as int, src, r0),
        decreases n.children.len() - i,
    {
        c_calls_in_exec(&n.children[i], idx, source, refs);
        i += 1;
    }
}

/// Records an include, as [`include_into`] says.
fn include_into_exec(n: &SyntaxNode, source: &str, nodes: &mut Vec<ExtractedNode>, refs: &mut Vec<UnresolvedRef>)
    requires
        n.start_row < usize::MAX,
        n.end_row < usize::MAX,
    ensures
        ({
            let st = include_into(*n, encode_utf8(source@), (node_views(old(nodes)@), seq![], ref_views(old(refs)@)));
            node_views(final(nodes)@) == st.0 && ref_views(final(refs)@) == st.2
        }),
{
    let name = match child_by_field_exec(n, "path") {
        Some(p) => text_of(p, source),
        None => text_of(n, source),
    };
    let idx = nodes.len();
    push_node(nodes, make_symbol(NodeKind::Import, name.clone(), None, None, None, n, None, false));
    push_ref(refs, make_ref(idx, name, EdgeKind::Imports, None, None));
}

/// Walks the subtree at `n` as [`c_walk`] says; its previous siblings are
/// the first `pos` of `siblings`.
fn walk(
    n: &SyntaxNode,
    top_level: bool,
    siblings: &Vec<SyntaxNode>,
    pos: usize,
    parent: Option<usize>,
    source: &str,
    path: &str,
    nodes: &mut Vec<ExtractedNode>,
    edges: &mut Vec<ExtractedEdge>,
    refs: &mut Vec<UnresolvedRef>,
)
    requires
        rows_fit(*n),
        pos <= siblings@.len(),
    ensures
        extraction_of(final(nodes)@, final(edges)@, final(refs)@) == c_walk(
            *n,
            top_level,
            siblings@.take(pos as int),
            opt_index(parent),
            encode_utf8(source@),
            path@,
            extraction_of(old(nodes)@, old(edges)@, old(refs)@),
        ),
    decreases n,
{
    let ghost src = encode_utf8(source@);
    let k = n.kind.as_str();
    let d = c_declared_exec(n, top_level, siblings, pos, source, path);
    if same_text(k, "function_definition") && d.is_some() {
        let idx = nodes.len();
        push_node(nodes, d.unwrap());
        push_contains(edges, parent, idx);
        c_calls_in_exec(n, idx, source, refs);
        return;
    }
    if same_text(k, "preproc_include") {
        let ghost e0 = edges@;
        include_into_exec(n, source, nodes, refs);
        assert(edge_views(edges@) == edge_views(e0));
    } else if let Some(e) = d {
        let idx = nodes.len();
        push_node(nodes, e);
        push_contains(edges, parent, idx);
    }
    let top = same_text(k, "translation_unit");
    let ghost st1 = extraction_of(nodes@, edges@, refs@);
    let mut i: usize = 0;
    while i < n.children.len()
        invariant
            i <= n.children@.len(),
            src == encode_utf8(source@),
            rows_fit(*n),
            extraction_of(nodes@, edges@, refs@) == c_walk_among(n.children@, i as nat, top, opt_index(parent), src, path@, st1),
        decreases n.children.len() - i,
    {
        proof {
            lemma_rows_fit_child(n.children@, n.children@.len(), i as int);
        }
        walk(&n.children[i], top, &n.children, i, parent, source, path, nodes, edges, refs);
        i += 1;
    }
}

proof fn lemma_first_c_function_extend(s: Seq<NodeView>, k: int)
    requires
        0 <= k <= s.len(),
        first_c_function(s.take(k)) is Some,
    ensures
        first_c_function(s) == first_c_function(s.take(k)),
    decreases s.len() - k,
{
    if k < s.len() {
        assert(s.take(k + 1).drop_last() =~= s.take(k));
        lemma_first_c_function_extend(s, k + 1);
    } else {
        assert(s.take(k) =~= s);
    }
}

/// The first function among the symbols, as [`first_c_function`] says.
fn first_c_function_exec(nodes: &Vec<ExtractedNode>) -> (r: Option<usize>)
    ensures
        opt_index(r) == first_c_function(node_views(nodes@)),
{
    let ghost nv = node_views(nodes@);
    let mut i: usize = 0;
    assert(nv.take(0) =~= Seq::<NodeView>::empty());
    while i < nodes.len()
        invariant
            i <= nodes@.len(),
            nv == node_views(nodes@),
            first_c_function(nv.take(i as int)) is None,
        decreases nodes.len() - i,
    {
        assert(nv.take(i + 1).drop_last() =~= nv.take(i as int));
        if nodes[i].kind == NodeKind::Function {
            proof {
                lemma_first_c_function_extend(nv, i + 1);
            }
            return Some(i);
        }
        i += 1;
    }
    assert(nv.take(i as int) =~= nv);
    None
}

/// Symbol extraction for C.
pub struct CExtractor;

/// What extraction yields for a C tree, with no file facts yet.
pub open spec fn c_file(r: ExtractedFile, tree: SyntaxNode, source: Seq<char>, path: Seq<char>) -> bool {
    &&& r.language == Language::C
    &&& r.content_hash@.len() == 0
    &&& r.mtime_ns == 0
    &&& r.size_bytes == 0
    &&& r.structure_hash is None
    &&& extraction_of(r.nodes@, r.edges@, r.unresolved_refs@) == c_extraction(tree, source, encode_utf8(source), path)
}

impl CExtractor {
    /// The language this extractor handles.
    pub fn language(&self) -> (r: Language)
        ensures
            r == Language::C,
    {
        Language::C
    }

    /// Walks the tree in pre-order recording functions (with the calls in
    /// their bodies), structs, enums, typedefs, top-level declarations and
    /// includes; then the variables the text reads with `getenv`.
    pub fn extract(&self, tree: &SyntaxNode, source: &str, file_path: &str) -> (r: ExtractedFile)
        requires
            rows_fit(*tree),
        ensures
            c_file(r, *tree, source@, file_path@),
    {
        let mut nodes: Vec<ExtractedNode> = Vec::new();
        let mut edges: Vec<ExtractedEdge> = Vec::new();
        let mut refs: Vec<UnresolvedRef> = Vec::new();
        let none: Vec<SyntaxNode> = Vec::new();
        proof {
            assert(node_views(nodes@) =~= Seq::<NodeView>::empty());
            assert(edge_views(edges@) =~= Seq::<EdgeView>::empty());
            assert(ref_views(refs@) =~= Seq::<RefView>::empty());
            assert(none@.take(0) =~= Seq::<SyntaxNode>::empty());
        }
        walk(tree, false, &none, 0, None, source, file_path, &mut nodes, &mut edges, &mut refs);
        let mut all: Vec<Vec<char>> = Vec::new();
        push_group_texts(&matches_exec("getenv\\(\\s*\"([A-Z_][A-Z0-9_]*)\"\\s*\\)", source), 1, &mut all);
        assert(views(all@) =~= group_texts(matches_of(c_getenv_pattern(), source@), 1));
        let names = dedup_chars(&all);
        let ff = first_c_function_exec(&nodes);
        push_env_records(&names, ff, &mut nodes, &mut edges);
        ExtractedFile {
            language: Language::C,
            content_hash: String::new(),
            mtime_ns: 0,
            size_bytes: 0,
            nodes,
            edges,
            unresolved_refs: refs,
            structure_hash: None,
        }
    }
}

/// Parses a C text and extracts its symbols; `None` when the parser gives no
/// tree or a row too large for a line number.
pub fn extract_c(source: &str, file_path: &str) -> (r: Option<ExtractedFile>)
    ensures
        match syntax_tree(source@, Language::C) {
            Some(t) => if rows_fit(t) {
                r matches Some(f) && c_file(f, t, source@, file_path@)
            } else {
                r is None
            },
            None => r is None,
        },
        r matches Some(f) ==> linked(extraction_of(f.nodes@, f.edges@, f.unresolved_refs@)),
{
    match parse_syntax(source, Language::C) {
        Some(t) => {
            if rows_fit_exec(&t) {
                proof {
                    lemma_c_extraction_linked(t, source@, encode_utf8(source@), file_path@);
                }
                Some(CExtractor.extract(&t, source, file_path))
            } else {
                None
            }
        },
        None => None,
    }
}

proof fn lemma_c_calls_within(n: SyntaxNode, idx: int, src: Seq<u8>, refs: Seq<RefView>, bound: int)
    requires
        refs_within(refs, bound),
        0 <= idx < bound,
    ensures
        refs_within(c_calls_in(n, idx, src, refs), bound),
    decreases n, 0nat,
{
    let r = if n.kind@ == "call_expression"@ && child_by_field(n.children@, "function"@) is Some {
        refs.push(reference(idx, node_text(child_by_field(n.children@, "function"@)->0, src), EdgeKind::Calls, None, None))
    } else {
        refs
    };
    assert(refs_within(r, bound));
    lemma_c_calls_among_within(n.children@, n.children@.len(), idx, src, r, bound);
}

proof fn lemma_c_calls_among_within(cs: Seq<SyntaxNode>, k: nat, idx: int, src: Seq<u8>, refs: Seq<RefView>, bound: int)
    requires
        refs_within(refs, bound),
        0 <= idx < bound,
    ensures
        refs_within(c_calls_among(cs, k, idx, src, refs), bound),
    decreases cs, k,
{
    if k == 0 || k > cs.len() {
    } else {
        lemma_c_calls_among_within(cs, (k - 1) as nat, idx, src, refs, bound);
        lemma_c_calls_within(cs[k - 1], idx, src, c_calls_among(cs, (k - 1) as nat, idx, src, refs), bound);
    }
}

proof fn lemma_c_walk_linked(
    n: SyntaxNode,
    top_level: bool,
    before: Seq<SyntaxNode>,
    parent: Option<int>,
    src: Seq<u8>,
    path: Seq<char>,
    st: Extraction,
)
    requires
        linked(st),
        parent_within(parent, st.0.len() as int),
    ensures
        linked(c_walk(n, top_level, before, parent, src, path, st)),
        st.0.len() <= c_walk(n, top_level, before, parent, src, path, st).0.len(),
    decreases n, 0nat,
{
    let k = n.kind@;
    let cs = n.children@;
    let d = c_declared(n, top_level, before, src, path);
    if k == "function_definition"@ && d is Some {
        let idx = st.0.len() as int;
        let s1 = add_symbol(st, d->0, parent);
        assert(linked(s1));
        lemma_c_calls_within(n, idx, src, s1.2, s1.0.len() as int);
    } else {
        let s1 = if k == "preproc_include"@ {
            include_into(n, src, st)
        } else {
            match d {
                Some(v) => add_symbol(st, v, parent),
                None => st,
            }
        };
        assert(linked(s1));
        lemma_c_walk_among_linked(cs, cs.len(), k == "translation_unit"@, parent, src, path, s1);
    }
}

proof fn lemma_c_walk_among_linked(
    cs: Seq<SyntaxNode>,
    k: nat,
    top_level: bool,
    parent: Option<int>,
    src: Seq<u8>,
    path: Seq<char>,
    st: Extraction,
)
    requires
        linked(st),
        parent_within(parent, st.0.len() as int),
    ensures
        linked(c_walk_among(cs, k, top_level, parent, src, path, st)),
        st.0.len() <= c_walk_among(cs, k, top_level, parent, src, path, st).0.len(),
    decreases cs, k,
{
    if k == 0 || k > cs.len() {
    } else {
        lemma_c_walk_among_linked(cs, (k - 1) as nat, top_level, parent, src, path, st);
        let s = c_walk_among(cs, (k - 1) as nat, top_level, parent, src, path, st);
        lemma_c_walk_linked(cs[k - 1], top_level, cs.take(k - 1), parent, src, path, s);
    }
}

proof fn lemma_first_c_function_within(nodes: Seq<NodeView>)
    ensures
        parent_within(first_c_function(nodes), nodes.len() as int),
    decreases nodes.len(),
{
    if nodes.len() > 0 {
        lemma_first_c_function_within(nodes.drop_last());
    }
}

/// Every relationship and reference the C extractor records points at
/// symbols it recorded.
pub proof fn lemma_c_extraction_linked(tree: SyntaxNode, text: Seq<char>, src: Seq<u8>, path: Seq<char>)
    ensures
        linked(c_extraction(tree, text, src, path)),
{
    let w = c_walk(tree, false, seq![], None, src, path, (seq![], seq![], seq![]));
    lemma_c_walk_linked(tree, false, seq![], None, src, path, (seq![], seq![], seq![]));
    lemma_first_c_function_within(w.0);
    lemma_env_records_linked(
        dedup(group_texts(matches_of(c_getenv_pattern(), text), 1)),
        first_c_function(w.0),
        w,
    );
}

} // verus!
