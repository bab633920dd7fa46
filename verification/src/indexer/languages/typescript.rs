//! TypeScript (and JavaScript): functions, methods, classes, interfaces,
//! type aliases, enums, variables and imports, with the calls made inside
//! functions and the types classes extend or implement.
use vstd::prelude::*;

use crate::indexer::extractor::{
    edge_views, node_views, opt_chars, ref_views, EdgeView, ExtractedEdge, ExtractedNode, NodeView, RefView,
    UnresolvedRef,
};
use crate::indexer::languages::shared::{
    extraction_of, first_line, first_line_exec, make_ref, make_symbol, push_contains, push_node, push_ref,
    qualify, qualify_exec, reference, starts_with_exec, symbol, with_contains, Extraction, linked,
    parent_within, refs_within,
};
use crate::indexer::scanner::is_prefix_of;
use crate::indexer::syntax::{
    find_child_by_kind, first_of_kind, lemma_rows_fit_child, node_text, opt_node, rows_fit, text_of,
    SyntaxNode,
};
use crate::text::{append_chars, chars_of, same_text, string_of, trim, trim_chars};
use crate::indexer::extractor::ExtractedFile;
use crate::indexer::syntax::{parse_syntax, rows_fit_exec, syntax_tree};
use crate::types::{EdgeKind, Language, NodeKind};
use vstd::utf8::encode_utf8;

verus! {

/// The first child of kind `a`, else the first of kind `b`.
pub open spec fn first_of_either(cs: Seq<SyntaxNode>, a: Seq<char>, b: Seq<char>) -> Option<SyntaxNode> {
    match first_of_kind(cs, a) {
        Some(x) => Some(x),
        None => first_of_kind(cs, b),
    }
}

/// A comment right before a declaration documents it (trimmed).
pub open spec fn preceding_comment(prev: Option<SyntaxNode>, src: Seq<u8>) -> Option<Seq<char>> {
    match prev {
        Some(p) => if p.kind@ == "comment"@ {
            Some(trim(node_text(p, src)))
        } else {
            None
        },
        None => None,
    }
}

/// Whether a character is a quote mark.
pub open spec fn is_quote(c: char) -> bool {
    c == '\'' || c == '"'
}

/// `s` without its leading quote marks.
pub open spec fn unquote_start(s: Seq<char>) -> Seq<char>
    decreases s.len(),
{
    if s.len() > 0 && is_quote(s[0]) {
        unquote_start(s.drop_first())
    } else {
        s
    }
}

/// `s` without its trailing quote marks.
pub open spec fn unquote_end(s: Seq<char>) -> Seq<char>
    decreases s.len(),
{
    if s.len() > 0 && is_quote(s.last()) {
        unquote_end(s.drop_last())
    } else {
        s
    }
}

/// `s` without the quote marks at either end.
pub open spec fn unquote(s: Seq<char>) -> Seq<char> {
    unquote_end(unquote_start(s))
}

/// Whether a node kind declares a function or method.
pub open spec fn is_function_kind(k: Seq<char>) -> bool {
    k == "function_declaration"@ || k == "method_definition"@ || k == "arrow_function"@
}

/// The symbol a declaration node defines, if it is one this extractor
/// records and it has a name: functions and methods (signature: name,
/// parameters and return type), classes, interfaces, type aliases
/// (signature: first line) and enums; exported when the parent is an export
/// statement, documented by a comment right before it.
pub open spec fn declared(n: SyntaxNode, src: Seq<u8>, path: Seq<char>, exported: bool, prev: Option<SyntaxNode>) -> Option<NodeView> {
    let k = n.kind@;
    let cs = n.children@;
    let doc = preceding_comment(prev, src);
    if is_function_kind(k) {
        match first_of_either(cs, "identifier"@, "property_identifier"@) {
            Some(nm) => {
                let name = node_text(nm, src);
                let kind = if k == "method_definition"@ {
                    NodeKind::Method
                } else {
                    NodeKind::Function
                };
                let params = match first_of_kind(cs, "formal_parameters"@) {
                    Some(p) => node_text(p, src),
                    None => "()"@,
                };
                let sig = match first_of_kind(cs, "type_annotation"@) {
                    Some(t) => name + params + " "@ + node_text(t, src),
                    None => name + params,
                };
                Some(symbol(kind, name, Some(qualify(path, name)), Some(sig), doc, n, None, exported))
            },
            None => None,
        }
    } else if k == "class_declaration"@ || k == "interface_declaration"@ || k == "type_alias_declaration"@ {
        match first_of_either(cs, "type_identifier"@, "identifier"@) {
            Some(nm) => {
                let name = node_text(nm, src);
                let kind = if k == "class_declaration"@ {
                    NodeKind::Class
                } else if k == "interface_declaration"@ {
                    NodeKind::Interface
                } else {
                    NodeKind::TypeAlias
                };
                let sig = if k == "type_alias_declaration"@ {
                    Some(first_line(node_text(n, src)))
                } else {
                    None
                };
                Some(symbol(kind, name, Some(qualify(path, name)), sig, doc, n, None, exported))
            },
            None => None,
        }
    } else if k == "enum_declaration"@ {
        match first_of_kind(cs, "identifier"@) {
            Some(nm) => {
                let name = node_text(nm, src);
                Some(symbol(NodeKind::Enum, name, Some(qualify(path, name)), None, doc, n, None, exported))
            },
            None => None,
        }
    } else {
        None
    }
}

/// Records a symbol and the `contains` relationship from the enclosing one.
pub open spec fn add_symbol(st: Extraction, v: NodeView, parent: Option<int>) -> Extraction {
    (st.0.push(v), with_contains(st.1, parent, st.0.len() as int), st.2)
}

/// Marks the last recorded symbol, if any, as exported.
pub open spec fn mark_last_export(st: Extraction) -> Extraction {
    if st.0.len() > 0 {
        let l = st.0.last();
        (st.0.update(st.0.len() - 1, NodeView { is_export: true, ..l }), st.1, st.2)
    } else {
        st
    }
}

/// The calls inside `n`, not looking into nested function expressions: each
/// call refers from the symbol at `idx` to the text of its callee.
pub open spec fn calls_in(n: SyntaxNode, idx: int, src: Seq<u8>, refs: Seq<RefView>) -> Seq<RefView>
    decreases n, 0nat,
{
    let r = if n.kind@ == "call_expression"@ && n.children@.len() > 0 {
        refs.push(reference(idx, node_text(n.children@[0], src), EdgeKind::Calls, None, None))
    } else {
        refs
    };
    calls_among(n.children@, n.children@.len(), idx, src, r)
}

/// [`calls_in`] over the first `k` children in `cs`.
pub open spec fn calls_among(cs: Seq<SyntaxNode>, k: nat, idx: int, src: Seq<u8>, refs: Seq<RefView>) -> Seq<RefView>
    decreases cs, k,
{
    if k == 0 || k > cs.len() {
        refs
    } else {
        let r = calls_among(cs, (k - 1) as nat, idx, src, refs);
        let c = cs[k - 1];
        if c.kind@ == "arrow_function"@ || c.kind@ == "function"@ {
            r
        } else {
            calls_in(c, idx, src, r)
        }
    }
}

/// The identifiers among the first `k` nodes of `gs`, each a reference of
/// the given kind from the symbol at `idx`.
pub open spec fn names_among(gs: Seq<SyntaxNode>, k: nat, idx: int, kind: EdgeKind, src: Seq<u8>, refs: Seq<RefView>) -> Seq<RefView>
    decreases k,
{
    if k == 0 || k > gs.len() {
        refs
    } else {
        let r = names_among(gs, (k - 1) as nat, idx, kind, src, refs);
        let g = gs[k - 1];
        if g.kind@ == "identifier"@ || g.kind@ == "type_identifier"@ {
            r.push(reference(idx, node_text(g, src), kind, None, None))
        } else {
            r
        }
    }
}

/// The types a class or interface extends (in `class_heritage` or
/// `extends_clause` children) or implements (in `implements_clause`
/// children), among its first `k` children.
pub open spec fn heritage_among(cs: Seq<SyntaxNode>, k: nat, idx: int, src: Seq<u8>, refs: Seq<RefView>) -> Seq<RefView>
    decreases k,
{
    if k == 0 || k > cs.len() {
        refs
    } else {
        let r = heritage_among(cs, (k - 1) as nat, idx, src, refs);
        let c = cs[k - 1];
        if c.kind@ == "class_heritage"@ || c.kind@ == "extends_clause"@ {
            names_among(c.children@, c.children@.len(), idx, EdgeKind::Extends, src, r)
        } else if c.kind@ == "implements_clause"@ {
            names_among(c.children@, c.children@.len(), idx, EdgeKind::Implements, src, r)
        } else {
            r
        }
    }
}

/// The names an import clause brings in, from the import symbol at `idx`.
pub open spec fn import_names(n: SyntaxNode, idx: int, from: Option<Seq<char>>, src: Seq<u8>, refs: Seq<RefView>) -> Seq<RefView>
    decreases n, 0nat,
{
    import_names_among(n.children@, n.children@.len(), idx, from, src, refs)
}

/// [`import_names`] over the first `k` nodes of `cs`: identifiers, the
/// identifier of an import specifier, and nested named imports.
pub open spec fn import_names_among(
    cs: Seq<SyntaxNode>,
    k: nat,
    idx: int,
    from: Option<Seq<char>>,
    src: Seq<u8>,
    refs: Seq<RefView>,
) -> Seq<RefView>
    decreases cs, k,
{
    if k == 0 || k > cs.len() {
        refs
    } else {
        let r = import_names_among(cs, (k - 1) as nat, idx, from, src, refs);
        let c = cs[k - 1];
        if c.kind@ == "identifier"@ || c.kind@ == "type_identifier"@ {
            r.push(reference(idx, node_text(c, src), EdgeKind::Imports, from, None))
        } else if c.kind@ == "import_specifier"@ {
            match first_of_kind(c.children@, "identifier"@) {
                Some(nm) => r.push(reference(idx, node_text(nm, src), EdgeKind::Imports, from, None)),
                None => r,
            }
        } else if c.kind@ == "named_imports"@ {
            import_names(c, idx, from, src, r)
        } else {
            r
        }
    }
}

/// An import statement: a symbol named after its first line, and a
/// reference for each name its import clause and named imports bring in,
/// with the unquoted module path.
pub open spec fn import_into(n: SyntaxNode, src: Seq<u8>, st: Extraction) -> Extraction {
    let cs = n.children@;
    let from = match first_of_kind(cs, "string"@) {
        Some(s) => Some(unquote(node_text(s, src))),
        None => None,
    };
    let idx = st.0.len() as int;
    let r1 = match first_of_kind(cs, "import_clause"@) {
        Some(c) => import_names(c, idx, from, src, st.2),
        None => st.2,
    };
    let r2 = match first_of_kind(cs, "named_imports"@) {
        Some(c) => import_names(c, idx, from, src, r1),
        None => r1,
    };
    (st.0.push(symbol(NodeKind::Import, first_line(node_text(n, src)), None, None, None, n, None, false)), st.1, r2)
}

/// The variables a declaration `n` declares among its first `k` children:
/// each declarator with an identifier is a constant when the declaration's
/// text starts with `const`, else a variable.
pub open spec fn variables_among(
    n: SyntaxNode,
    k: nat,
    exported: bool,
    prev: Option<SyntaxNode>,
    parent: Option<int>,
    src: Seq<u8>,
    path: Seq<char>,
    st: Extraction,
) -> Extraction
    decreases k,
{
    if k == 0 || k > n.children@.len() {
        st
    } else {
        let s = variables_among(n, (k - 1) as nat, exported, prev, parent, src, path, st);
        let c = n.children@[k - 1];
        if c.kind@ == "variable_declarator"@ && first_of_kind(c.children@, "identifier"@) is Some {
            let name = node_text(first_of_kind(c.children@, "identifier"@)->0, src);
            let text = node_text(n, src);
            let kind = if is_prefix_of("const"@, text) {
                NodeKind::Constant
            } else {
                NodeKind::Variable
            };
            let v = symbol(
                kind,
                name,
                Some(qualify(path, name)),
                Some(first_line(text)),
                preceding_comment(prev, src),
                c,
                None,
                exported,
            );
            add_symbol(s, v, parent)
        } else {
            s
        }
    }
}

/// The previous sibling of the `k`-th child (1-based) of `cs`.
pub open spec fn prev_of(cs: Seq<SyntaxNode>, k: nat) -> Option<SyntaxNode> {
    if k >= 2 {
        Some(cs[k - 2])
    } else {
        None
    }
}

/// Walks a subtree in pre-order. `exported`: the parent is an export
/// statement; `prev`: the previous sibling; `parent`: the index of the
/// enclosing symbol.
pub open spec fn ts_walk(
    n: SyntaxNode,
    exported: bool,
    prev: Option<SyntaxNode>,
    parent: Option<int>,
    src: Seq<u8>,
    path: Seq<char>,
    st: Extraction,
) -> Extraction
    decreases n, 0nat,
{
    let k = n.kind@;
    let cs = n.children@;
    let d = declared(n, src, path, exported, prev);
    if (is_function_kind(k) || k == "class_declaration"@ || k == "interface_declaration"@) && d is Some {
        let idx = st.0.len() as int;
        let s1 = add_symbol(st, d->0, parent);
        let r = if is_function_kind(k) {
            calls_in(n, idx, src, s1.2)
        } else {
            heritage_among(cs, cs.len(), idx, src, s1.2)
        };
        walk_among(cs, cs.len(), Some(idx), src, path, (s1.0, s1.1, r))
    } else if k == "type_alias_declaration"@ || k == "enum_declaration"@ {
        let s1 = match d {
            Some(v) => add_symbol(st, v, parent),
            None => st,
        };
        walk_among(cs, cs.len(), parent, src, path, s1)
    } else if k == "import_statement"@ {
        walk_among(cs, cs.len(), parent, src, path, import_into(n, src, st))
    } else if k == "export_statement"@ {
        export_among(cs, cs.len(), parent, src, path, st)
    } else if k == "lexical_declaration"@ || k == "variable_declaration"@ {
        let s1 = variables_among(n, cs.len(), exported, prev, parent, src, path, st);
        walk_among(cs, cs.len(), parent, src, path, s1)
    } else {
        walk_among(cs, cs.len(), parent, src, path, st)
    }
}

/// [`ts_walk`] over the first `k` children in `cs`, whose parent is not an
/// export statement.
pub open spec fn walk_among(
    cs: Seq<SyntaxNode>,
    k: nat,
    parent: Option<int>,
    src: Seq<u8>,
    path: Seq<char>,
    st: Extraction,
) -> Extraction
    decreases cs, k,
{
    if k == 0 || k > cs.len() {
        st
    } else {
        ts_walk(cs[k - 1], false, prev_of(cs, k), parent, src, path, walk_among(cs, (k - 1) as nat, parent, src, path, st))
    }
}

/// The children of an export statement: after each, the last recorded
/// symbol is marked exported.
pub open spec fn export_among(
    cs: Seq<SyntaxNode>,
    k: nat,
    parent: Option<int>,
    src: Seq<u8>,
    path: Seq<char>,
    st: Extraction,
) -> Extraction
    decreases cs, k,
{
    if k == 0 || k > cs.len() {
        st
    } else {
        mark_last_export(
            ts_walk(cs[k - 1], true, prev_of(cs, k), parent, src, path, export_among(cs, (k - 1) as nat, parent, src, path, st)),
        )
    }
}

/// The first child of kind `a`, else the first of kind `b`.
fn first_of_either_exec<'a>(n: &'a SyntaxNode, a: &str, b: &str) -> (r: Option<&'a SyntaxNode>)
    ensures
        opt_node(r) == first_of_either(n.children@, a@, b@),
{
    match find_child_by_kind(n, a) {
        Some(x) => Some(x),
        None => find_child_by_kind(n, b),
    }
}

/// The comment right before a declaration, trimmed.
fn preceding_comment_exec(prev: Option<&SyntaxNode>, source: &str) -> (r: Option<String>)
    ensures
        opt_chars(r) == preceding_comment(opt_node(prev), encode_utf8(source@)),
{
    match prev {
        Some(p) => if same_text(p.kind.as_str(), "comment") {
            let t = chars_of(text_of(p, source).as_str());
            Some(string_of(&trim_chars(&t)))
        } else {
            None
        },
        None => None,
    }
}

/// `s` without the quote marks at either end.
fn unquote_exec(s: &Vec<char>) -> (r: Vec<char>)
    ensures
        r@ == unquote(s@),
{
    let mut lo: usize = 0;
    assert(s@.skip(0) =~= s@);
    while lo < s.len() && (s[lo] == '\'' || s[lo] == '"')
        invariant
            lo <= s.len(),
            unquote_start(s@) == unquote_start(s@.skip(lo as int)),
        decreases s.len() - lo,
    {
        assert(s@.skip(lo as int).drop_first() =~= s@.skip(lo as int + 1));
        lo += 1;
    }
    let ghost head = unquote_start(s@);
    let mut hi: usize = s.len();
    assert(s@.subrange(lo as int, hi as int) =~= s@.skip(lo as int));
    while hi > lo && (s[hi - 1] == '\'' || s[hi - 1] == '"')
        invariant
            lo <= hi <= s.len(),
            head == s@.skip(lo as int),
            unquote_end(head) == unquote_end(s@.subrange(lo as int, hi as int)),
        decreases hi,
    {
        assert(s@.subrange(lo as int, hi as int).drop_last() =~= s@.subrange(lo as int, hi - 1));
        hi -= 1;
    }
    let mut r: Vec<char> = Vec::new();
    let mut i: usize = lo;
    while i < hi
        invariant
            lo <= i <= hi <= s.len(),
            r@ == s@.subrange(lo as int, i as int),
        decreases hi - i,
    {
        r.push(s[i]);
        assert(s@.subrange(lo as int, i + 1) =~= s@.subrange(lo as int, i as int).push(s@[i as int]));
        i += 1;
    }
    r
}

/// Whether a node kind declares a function or method.
fn is_function_kind_exec(k: &str) -> (r: bool)
    ensures
        r == is_function_kind(k@),
{
    same_text(k, "function_declaration") || same_text(k, "method_definition") || same_text(k, "arrow_function")
}

/// The symbol a declaration node defines, as [`declared`] says.
fn declared_exec(n: &SyntaxNode, source: &str, path: &str, exported: bool, prev: Option<&SyntaxNode>) -> (r: Option<ExtractedNode>)
    requires
        n.start_row < usize::MAX,
        n.end_row < usize::MAX,
    ensures
        match r {
            Some(e) => declared(*n, encode_utf8(source@), path@, exported, opt_node(prev)) == Some(e@),
            None => declared(*n, encode_utf8(source@), path@, exported, opt_node(prev)) is None,
        },
{
    let k = n.kind.as_str();
    if is_function_kind_exec(k) {
        let nm = match first_of_either_exec(n, "identifier", "property_identifier") {
            Some(x) => x,
            None => return None,
        };
        let name = text_of(nm, source);
        let kind = if same_text(k, "method_definition") {
            NodeKind::Method
        } else {
            NodeKind::Function
        };
        let params = match find_child_by_kind(n, "formal_parameters") {
            Some(p) => text_of(p, source),
            None => "()".to_string(),
        };
        let mut sig = chars_of(name.as_str());
        append_chars(&mut sig, &chars_of(params.as_str()));
        if let Some(t) = find_child_by_kind(n, "type_annotation") {
            append_chars(&mut sig, &chars_of(" "));
            append_chars(&mut sig, &chars_of(text_of(t, source).as_str()));
        }
        let doc = preceding_comment_exec(prev, source);
        let q = qualify_exec(path, name.as_str());
        return Some(make_symbol(kind, name, Some(q), Some(string_of(&sig)), doc, n, None, exported));
    }
    let is_class = same_text(k, "class_declaration");
    let is_interface = same_text(k, "interface_declaration");
    let is_alias = same_text(k, "type_alias_declaration");
    if is_class || is_interface || is_alias {
        let nm = match first_of_either_exec(n, "type_identifier", "identifier") {
            Some(x) => x,
            None => return None,
        };
        let name = text_of(nm, source);
        let kind = if is_class {
            NodeKind::Class
        } else if is_interface {
            NodeKind::Interface
        } else {
            NodeKind::TypeAlias
        };
        let sig = if is_alias {
            Some(first_line_exec(text_of(n, source).as_str()))
        } else {
            None
        };
        let doc = preceding_comment_exec(prev, source);
        let q = qualify_exec(path, name.as_str());
        return Some(make_symbol(kind, name, Some(q), sig, doc, n, None, exported));
    }
    if same_text(k, "enum_declaration") {
        let nm = match find_child_by_kind(n, "identifier") {
            Some(x) => x,
            None => return None,
        };
        let name = text_of(nm, source);
        let doc = preceding_comment_exec(prev, source);
        let q = qualify_exec(path, name.as_str());
        return Some(make_symbol(NodeKind::Enum, name, Some(q), None, doc, n, None, exported));
    }
    None
}

/// Records the calls inside `n` as [`calls_in`] says.
fn calls_in_exec(n: &SyntaxNode, idx: usize, source: &str, refs: &mut Vec<UnresolvedRef>)
    ensures
        ref_views(final(refs)@) == calls_in(*n, idx as int, encode_utf8(source@), ref_views(old(refs)@)),
    decreases n,
{
    let ghost src = encode_utf8(source@);
    if same_text(n.kind.as_str(), "call_expression") && n.children.len() > 0 {
        push_ref(refs, make_ref(idx, text_of(&n.children[0], source), EdgeKind::Calls, None, None));
    }
    let ghost r0 = ref_views(refs@);
    let mut i: usize = 0;
    while i < n.children.len()
        invariant
            i <= n.children@.len(),
            src == encode_utf8(source@),
            ref_views(refs@) == calls_among(n.children@, i as nat, idx as int, src, r0),
        decreases n.children.len() - i,
    {
        let c = &n.children[i];
        if !(same_text(c.kind.as_str(), "arrow_function") || same_text(c.kind.as_str(), "function")) {
            calls_in_exec(c, idx, source, refs);
        }
        i += 1;
    }
}

/// Records the identifiers among `gs` as [`names_among`] says.
fn names_among_exec(gs: &Vec<SyntaxNode>, idx: usize, kind: EdgeKind, source: &str, refs: &mut Vec<UnresolvedRef>)
    ensures
        ref_views(final(refs)@) == names_among(gs@, gs@.len(), idx as int, kind, encode_utf8(source@), ref_views(old(refs)@)),
{
    let ghost src = encode_utf8(source@);
    let ghost r0 = ref_views(refs@);
    let mut i: usize = 0;
    while i < gs.len()
        invariant
            i <= gs@.len(),
            src == encode_utf8(source@),
            ref_views(refs@) == names_among(gs@, i as nat, idx as int, kind, src, r0),
        decreases gs.len() - i,
    {
        let g = &gs[i];
        if same_text(g.kind.as_str(), "identifier") || same_text(g.kind.as_str(), "type_identifier") {
            push_ref(refs, make_ref(idx, text_of(g, source), kind, None, None));
        }
        i += 1;
    }
}

/// Records what a class or interface extends and implements.
fn heritage_exec(n: &SyntaxNode, idx: usize, source: &str, refs: &mut Vec<UnresolvedRef>)
    ensures
        ref_views(final(refs)@) == heritage_among(n.children@, n.children@.len(), idx as int, encode_utf8(source@), ref_views(old(refs)@)),
{
    let ghost src = encode_utf8(source@);
    let ghost r0 = ref_views(refs@);
    let mut i: usize = 0;
    while i < n.children.len()
        invariant
            i <= n.children@.len(),
            src == encode_utf8(source@),
            ref_views(refs@) == heritage_among(n.children@, i as nat, idx as int, src, r0),
        decreases n.children.len() - i,
    {
        let c = &n.children[i];
        let k = c.kind.as_str();
        if same_text(k, "class_heritage") || same_text(k, "extends_clause") {
            names_among_exec(&c.children, idx, EdgeKind::Extends, source, refs);
        } else if same_text(k, "implements_clause") {
            names_among_exec(&c.children, idx, EdgeKind::Implements, source, refs);
        }
        i += 1;
    }
}

/// Records the names an import clause brings in.
fn import_names_exec(n: &SyntaxNode, idx: usize, from: &Option<String>, source: &str, refs: &mut Vec<UnresolvedRef>)
    ensures
        ref_views(final(refs)@) == import_names(*n, idx as int, opt_chars(*from), encode_utf8(source@), ref_views(old(refs)@)),
    decreases n,
{
    let ghost src = encode_utf8(source@);
    let ghost r0 = ref_views(refs@);
    let mut i: usize = 0;
    while i < n.children.len()
        invariant
            i <= n.children@.len(),
            src == encode_utf8(source@),
            ref_views(refs@) == import_names_among(n.children@, i as nat, idx as int, opt_chars(*from), src, r0),
        decreases n.children.len() - i,
    {
        let c = &n.children[i];
        let k = c.kind.as_str();
        if same_text(k, "identifier") || same_text(k, "type_identifier") {
            push_ref(refs, make_ref(idx, text_of(c, source), EdgeKind::Imports, from.clone(), None));
        } else if same_text(k, "import_specifier") {
            if let Some(nm) = find_child_by_kind(c, "identifier") {
                push_ref(refs, make_ref(idx, text_of(nm, source), EdgeKind::Imports, from.clone(), None));
            }
        } else if same_text(k, "named_imports") {
            import_names_exec(c, idx, from, source, refs);
        }
        i += 1;
    }
}

/// Records an import statement as [`import_into`] says.
fn import_into_exec(n: &SyntaxNode, source: &str, nodes: &mut Vec<ExtractedNode>, refs: &mut Vec<UnresolvedRef>)
    requires
        n.start_row < usize::MAX,
        n.end_row < usize::MAX,
    ensures
        ({
            let st = import_into(*n, encode_utf8(source@), (node_views(old(nodes)@), seq![], ref_views(old(refs)@)));
            node_views(final(nodes)@) == st.0 && ref_views(final(refs)@) == st.2
        }),
{
    let from = match find_child_by_kind(n, "string") {
        Some(s) => Some(string_of(&unquote_exec(&chars_of(text_of(s, source).as_str())))),
        None => None,
    };
    let idx = nodes.len();
    if let Some(c) = find_child_by_kind(n, "import_clause") {
        import_names_exec(c, idx, &from, source, refs);
    }
    if let Some(c) = find_child_by_kind(n, "named_imports") {
        import_names_exec(c, idx, &from, source, refs);
    }
    let name = first_line_exec(text_of(n, source).as_str());
    push_node(nodes, make_symbol(NodeKind::Import, name, None, None, None, n, None, false));
}

/// Records the variables a declaration declares as [`variables_among`] says.
fn variables_exec(
    n: &SyntaxNode,
    exported: bool,
    prev: Option<&SyntaxNode>,
    parent: Option<usize>,
    source: &str,
    path: &str,
    nodes: &mut Vec<ExtractedNode>,
    edges: &mut Vec<ExtractedEdge>,
)
    requires
        rows_fit(*n),
    ensures
        ({
            let st = variables_among(
                *n,
                n.children@.len(),
                exported,
                opt_node(prev),
                match parent {
                    Some(p) => Some(p as int),
                    None => None,
                },
                encode_utf8(source@),
                path@,
                (node_views(old(nodes)@), edge_views(old(edges)@), seq![]),
            );
            node_views(final(nodes)@) == st.0 && edge_views(final(edges)@) == st.1
        }),
{
    let ghost src = encode_utf8(source@);
    let ghost pi = match parent {
        Some(p) => Some(p as int),
        None => None,
    };
    let ghost st0: Extraction = (node_views(nodes@), edge_views(edges@), seq![]);
    let mut i: usize = 0;
    while i < n.children.len()
        invariant
            i <= n.children@.len(),
            src == encode_utf8(source@),
            rows_fit(*n),
            pi == match parent {
                Some(p) => Some(p as int),
                None => None::<int>,
            },
            ({
                let st = variables_among(*n, i as nat, exported, opt_node(prev), pi, src, path@, st0);
                node_views(nodes@) == st.0 && edge_views(edges@) == st.1 && st.2 == Seq::<RefView>::empty()
            }),
        decreases n.children.len() - i,
    {
        let c = &n.children[i];
        if same_text(c.kind.as_str(), "variable_declarator") {
            if let Some(nm) = find_child_by_kind(c, "identifier") {
                proof {
                    lemma_rows_fit_child(n.children@, n.children@.len(), i as int);
                }
                let name = text_of(nm, source);
                let text = text_of(n, source);
                let kind = if starts_with_exec(text.as_str(), "const") {
                    NodeKind::Constant
                } else {
                    NodeKind::Variable
                };
                let sig = first_line_exec(text.as_str());
                let doc = preceding_comment_exec(prev, source);
                let q = qualify_exec(path, name.as_str());
                let idx = nodes.len();
                push_node(nodes, make_symbol(kind, name, Some(q), Some(sig), doc, c, None, exported));
                push_contains(edges, parent, idx);
            }
        }
        i += 1;
    }
}

proof fn lemma_variables_keep_refs(
    n: SyntaxNode,
    k: nat,
    exported: bool,
    prev: Option<SyntaxNode>,
    parent: Option<int>,
    src: Seq<u8>,
    path: Seq<char>,
    st: Extraction,
    other: Seq<RefView>,
)
    ensures
        variables_among(n, k, exported, prev, parent, src, path, st).2 == st.2,
        variables_among(n, k, exported, prev, parent, src, path, st).0 == variables_among(
            n,
            k,
            exported,
            prev,
            parent,
            src,
            path,
            (st.0, st.1, other),
        ).0,
        variables_among(n, k, exported, prev, parent, src, path, st).1 == variables_among(
            n,
            k,
            exported,
            prev,
            parent,
            src,
            path,
            (st.0, st.1, other),
        ).1,
    decreases k,
{
    if k > 0 && k <= n.children@.len() {
        lemma_variables_keep_refs(n, (k - 1) as nat, exported, prev, parent, src, path, st, other);
    }
}

/// Marks the last recorded symbol, if any, as exported.
fn mark_last_export_exec(nodes: &mut Vec<ExtractedNode>)
    ensures
        node_views(final(nodes)@) == mark_last_export((node_views(old(nodes)@), seq![], seq![])).0,
{
    if nodes.len() > 0 {
        let ghost before = node_views(nodes@);
        let mut e = nodes.pop().unwrap();
        e.is_export = true;
        let ghost l = before.last();
        assert(e@ == NodeView { is_export: true, ..l });
        assert(node_views(nodes@) =~= before.drop_last());
        push_node(nodes, e);
        assert(node_views(nodes@) =~= before.update(before.len() - 1, NodeView { is_export: true, ..l }));
    }
}

/// The index of the enclosing symbol, as an integer.
pub open spec fn opt_index(o: Option<usize>) -> Option<int> {
    match o {
        Some(p) => Some(p as int),
        None => None,
    }
}

/// Walks the subtree at `n` as [`ts_walk`] says.
fn walk(
    n: &SyntaxNode,
    exported: bool,
    prev: Option<&SyntaxNode>,
    parent: Option<usize>,
    source: &str,
    path: &str,
    nodes: &mut Vec<ExtractedNode>,
    edges: &mut Vec<ExtractedEdge>,
    refs: &mut Vec<UnresolvedRef>,
)
    requires
        rows_fit(*n),
    ensures
        extraction_of(final(nodes)@, final(edges)@, final(refs)@) == ts_walk(
            *n,
            exported,
            opt_node(prev),
            opt_index(parent),
            encode_utf8(source@),
            path@,
            extraction_of(old(nodes)@, old(edges)@, old(refs)@),
        ),
    decreases n,
{
    let ghost src = encode_utf8(source@);
    let ghost st0 = extraction_of(nodes@, edges@, refs@);
    let k = n.kind.as_str();
    let is_fn = is_function_kind_exec(k);
    let is_class = same_text(k, "class_declaration");
    let is_interface = same_text(k, "interface_declaration");
    let mut scope = parent;
    let mut in_export = false;
    let d = declared_exec(n, source, path, exported, prev);
    if (is_fn || is_class || is_interface) && d.is_some() {
        let idx = nodes.len();
        push_node(nodes, d.unwrap());
        push_contains(edges, parent, idx);
        if is_fn {
            calls_in_exec(n, idx, source, refs);
        } else {
            heritage_exec(n, idx, source, refs);
        }
        scope = Some(idx);
    } else if same_text(k, "type_alias_declaration") || same_text(k, "enum_declaration") {
        if let Some(e) = d {
            let idx = nodes.len();
            push_node(nodes, e);
            push_contains(edges, parent, idx);
        }
    } else if same_text(k, "import_statement") {
        let ghost e0 = edges@;
        import_into_exec(n, source, nodes, refs);
        assert(edge_views(edges@) == edge_views(e0));
    } else if same_text(k, "export_statement") {
        in_export = true;
    } else if same_text(k, "lexical_declaration") || same_text(k, "variable_declaration") {
        let ghost r0 = refs@;
        variables_exec(n, exported, prev, parent, source, path, nodes, edges);
        proof {
            lemma_variables_keep_refs(
                *n,
                n.children@.len(),
                exported,
                opt_node(prev),
                opt_index(parent),
                src,
                path@,
                st0,
                seq![],
            );
        }
        assert(ref_views(refs@) == ref_views(r0));
    }
    let ghost st1 = extraction_of(nodes@, edges@, refs@);
    let mut i: usize = 0;
    while i < n.children.len()
        invariant
            i <= n.children@.len(),
            src == encode_utf8(source@),
            rows_fit(*n),
            in_export ==> n.kind@ == "export_statement"@,
            extraction_of(nodes@, edges@, refs@) == if in_export {
                export_among(n.children@, i as nat, opt_index(scope), src, path@, st1)
            } else {
                walk_among(n.children@, i as nat, opt_index(scope), src, path@, st1)
            },
        decreases n.children.len() - i,
    {
        proof {
            lemma_rows_fit_child(n.children@, n.children@.len(), i as int);
        }
        let before = if i > 0 {
            Some(&n.children[i - 1])
        } else {
            None
        };
        walk(&n.children[i], in_export, before, scope, source, path, nodes, edges, refs);
        if in_export {
            let ghost e1 = edges@;
            let ghost r1 = refs@;
            mark_last_export_exec(nodes);
            assert(edge_views(edges@) == edge_views(e1) && ref_views(refs@) == ref_views(r1));
        }
        i += 1;
    }
}

/// What extraction yields for a tree: the walk from the root over an empty
/// record, with no file facts yet.
pub open spec fn extracted_from(r: ExtractedFile, language: Language, tree: SyntaxNode, src: Seq<u8>, path: Seq<char>) -> bool {
    &&& r.language == language
    &&& r.content_hash@.len() == 0
    &&& r.mtime_ns == 0
    &&& r.size_bytes == 0
    &&& r.structure_hash is None
    &&& extraction_of(r.nodes@, r.edges@, r.unresolved_refs@) == ts_walk(tree, false, None, None, src, path, (seq![], seq![], seq![]))
}

/// Walks a tree into a fresh extraction for a language.
fn extract_tree(tree: &SyntaxNode, source: &str, file_path: &str, language: Language) -> (r: ExtractedFile)
    requires
        rows_fit(*tree),
    ensures
        extracted_from(r, language, *tree, encode_utf8(source@), file_path@),
{
    let mut nodes: Vec<ExtractedNode> = Vec::new();
    let mut edges: Vec<ExtractedEdge> = Vec::new();
    let mut refs: Vec<UnresolvedRef> = Vec::new();
    proof {
        assert(extraction_of(nodes@, edges@, refs@) == (Seq::<NodeView>::empty(), Seq::<EdgeView>::empty(), Seq::<RefView>::empty())) by {
            assert(node_views(nodes@) =~= Seq::empty());
            assert(edge_views(edges@) =~= Seq::empty());
            assert(ref_views(refs@) =~= Seq::empty());
        }
    }
    walk(tree, false, None, None, source, file_path, &mut nodes, &mut edges, &mut refs);
    ExtractedFile {
        language,
        content_hash: String::new(),
        mtime_ns: 0,
        size_bytes: 0,
        nodes,
        edges,
        unresolved_refs: refs,
        structure_hash: None,
    }
}

/// Symbol extraction for TypeScript.
pub struct TypeScriptExtractor;

impl TypeScriptExtractor {
    /// The language this extractor handles.
    pub fn language(&self) -> (r: Language)
        ensures
            r == Language::TypeScript,
    {
        Language::TypeScript
    }

    /// Walks the tree in pre-order recording functions and methods (with
    /// the calls in their bodies), classes and interfaces (with what they
    /// extend or implement), type aliases, enums, variables and imports;
    /// symbols declared inside another are contained in it.
    pub fn extract(&self, tree: &SyntaxNode, source: &str, file_path: &str) -> (r: ExtractedFile)
        requires
            rows_fit(*tree),
        ensures
            extracted_from(r, Language::TypeScript, *tree, encode_utf8(source@), file_path@),
    {
        extract_tree(tree, source, file_path, Language::TypeScript)
    }
}

/// Symbol extraction for JavaScript: the same walk over a JavaScript tree.
pub struct JavaScriptExtractor;

impl JavaScriptExtractor {
    /// The language this extractor handles.
    pub fn language(&self) -> (r: Language)
        ensures
            r == Language::JavaScript,
    {
        Language::JavaScript
    }

    /// The TypeScript walk over a JavaScript tree, labelled JavaScript.
    pub fn extract(&self, tree: &SyntaxNode, source: &str, file_path: &str) -> (r: ExtractedFile)
        requires
            rows_fit(*tree),
        ensures
            extracted_from(r, Language::JavaScript, *tree, encode_utf8(source@), file_path@),
    {
        let mut r = TypeScriptExtractor.extract(tree, source, file_path);
        r.language = Language::JavaScript;
        r
    }
}

/// Parses a TypeScript or JavaScript text and extracts its symbols; `None`
/// for another language, when the parser gives no tree, or when a row is too
/// large for a line number.
pub fn extract_script(source: &str, file_path: &str, language: Language) -> (r: Option<ExtractedFile>)
    ensures
        (language == Language::TypeScript || language == Language::JavaScript) ==> match syntax_tree(source@, language) {
            Some(t) => if rows_fit(t) {
                r matches Some(f) && extracted_from(f, language, t, encode_utf8(source@), file_path@)
            } else {
                r is None
            },
            None => r is None,
        },
        !(language == Language::TypeScript || language == Language::JavaScript) ==> r is None,
        r matches Some(f) ==> linked(extraction_of(f.nodes@, f.edges@, f.unresolved_refs@)),
{
    if !(language == Language::TypeScript || language == Language::JavaScript) {
        return None;
    }
    match parse_syntax(source, language) {
        Some(t) => {
            if rows_fit_exec(&t) {
                proof {
                    lemma_script_extraction_linked(t, encode_utf8(source@), file_path@);
                }
                Some(extract_tree(&t, source, file_path, language))
            } else {
                None
            }
        },
        None => None,
    }
}

proof fn lemma_calls_within(n: SyntaxNode, idx: int, src: Seq<u8>, refs: Seq<RefView>, bound: int)
    requires
        refs_within(refs, bound),
        0 <= idx < bound,
    ensures
        refs_within(calls_in(n, idx, src, refs), bound),
    decreases n, 0nat,
{
    let r = if n.kind@ == "call_expression"@ && n.children@.len() > 0 {
        refs.push(reference(idx, node_text(n.children@[0], src), EdgeKind::Calls, None, None))
    } else {
        refs
    };
    assert(refs_within(r, bound));
    lemma_calls_among_within(n.children@, n.children@.len(), idx, src, r, bound);
}

proof fn lemma_calls_among_within(
    cs: Seq<SyntaxNode>,
    k: nat,
    idx: int,
    src: Seq<u8>,
    refs: Seq<RefView>,
    bound: int,
)
    requires
        refs_within(refs, bound),
        0 <= idx < bound,
    ensures
        refs_within(calls_among(cs, k, idx, src, refs), bound),
    decreases cs, k,
{
    if k == 0 || k > cs.len() {
    } else {
        lemma_calls_among_within(cs, (k - 1) as nat, idx, src, refs, bound);
        let r = calls_among(cs, (k - 1) as nat, idx, src, refs);
        let c = cs[k - 1];
        if !(c.kind@ == "arrow_function"@ || c.kind@ == "function"@) {
            lemma_calls_within(c, idx, src, r, bound);
        }
    }
}

proof fn lemma_names_within(
    gs: Seq<SyntaxNode>,
    k: nat,
    idx: int,
    kind: EdgeKind,
    src: Seq<u8>,
    refs: Seq<RefView>,
    bound: int,
)
    requires
        refs_within(refs, bound),
        0 <= idx < bound,
    ensures
        refs_within(names_among(gs, k, idx, kind, src, refs), bound),
    decreases k,
{
    if k == 0 || k > gs.len() {
    } else {
        lemma_names_within(gs, (k - 1) as nat, idx, kind, src, refs, bound);
    }
}

proof fn lemma_heritage_within(cs: Seq<SyntaxNode>, k: nat, idx: int, src: Seq<u8>, refs: Seq<RefView>, bound: int)
    requires
        refs_within(refs, bound),
        0 <= idx < bound,
    ensures
        refs_within(heritage_among(cs, k, idx, src, refs), bound),
    decreases k,
{
    if k == 0 || k > cs.len() {
    } else {
        lemma_heritage_within(cs, (k - 1) as nat, idx, src, refs, bound);
        let r = heritage_among(cs, (k - 1) as nat, idx, src, refs);
        let c = cs[k - 1];
        lemma_names_within(c.children@, c.children@.len(), idx, EdgeKind::Extends, src, r, bound);
        lemma_names_within(c.children@, c.children@.len(), idx, EdgeKind::Implements, src, r, bound);
    }
}

proof fn lemma_import_names_within(
    n: SyntaxNode,
    idx: int,
    from: Option<Seq<char>>,
    src: Seq<u8>,
    refs: Seq<RefView>,
    bound: int,
)
    requires
        refs_within(refs, bound),
        0 <= idx < bound,
    ensures
        refs_within(import_names(n, idx, from, src, refs), bound),
    decreases n, 0nat,
{
    lemma_import_names_among_within(n.children@, n.children@.len(), idx, from, src, refs, bound);
}

proof fn lemma_import_names_among_within(
    cs: Seq<SyntaxNode>,
    k: nat,
    idx: int,
    from: Option<Seq<char>>,
    src: Seq<u8>,
    refs: Seq<RefView>,
    bound: int,
)
    requires
        refs_within(refs, bound),
        0 <= idx < bound,
    ensures
        refs_within(import_names_among(cs, k, idx, from, src, refs), bound),
    decreases cs, k,
{
    if k == 0 || k > cs.len() {
    } else {
        lemma_import_names_among_within(cs, (k - 1) as nat, idx, from, src, refs, bound);
        let r = import_names_among(cs, (k - 1) as nat, idx, from, src, refs);
        let c = cs[k - 1];
        if c.kind@ == "named_imports"@ {
            lemma_import_names_within(c, idx, from, src, r, bound);
        }
    }
}

proof fn lemma_variables_linked(
    n: SyntaxNode,
    k: nat,
    exported: bool,
    prev: Option<SyntaxNode>,
    parent: Option<int>,
    src: Seq<u8>,
    path: Seq<char>,
    st: Extraction,
)
    requires
        linked(st),
        parent_within(parent, st.0.len() as int),
    ensures
        linked(variables_among(n, k, exported, prev, parent, src, path, st)),
        st.0.len() <= variables_among(n, k, exported, prev, parent, src, path, st).0.len(),
    decreases k,
{
    if k == 0 || k > n.children@.len() {
    } else {
        lemma_variables_linked(n, (k - 1) as nat, exported, prev, parent, src, path, st);
    }
}

proof fn lemma_walk_linked(
    n: SyntaxNode,
    exported: bool,
    prev: Option<SyntaxNode>,
    parent: Option<int>,
    src: Seq<u8>,
    path: Seq<char>,
    st: Extraction,
)
    requires
        linked(st),
        parent_within(parent, st.0.len() as int),
    ensures
        linked(ts_walk(n, exported, prev, parent, src, path, st)),
        st.0.len() <= ts_walk(n, exported, prev, parent, src, path, st).0.len(),
    decreases n, 0nat,
{
    let k = n.kind@;
    let cs = n.children@;
    let d = declared(n, src, path, exported, prev);
    if (is_function_kind(k) || k == "class_declaration"@ || k == "interface_declaration"@) && d is Some {
        let idx = st.0.len() as int;
        let s1 = add_symbol(st, d->0, parent);
        assert(linked(s1));
        if is_function_kind(k) {
            lemma_calls_within(n, idx, src, s1.2, s1.0.len() as int);
        } else {
            lemma_heritage_within(cs, cs.len(), idx, src, s1.2, s1.0.len() as int);
        }
        let r = if is_function_kind(k) {
            calls_in(n, idx, src, s1.2)
        } else {
            heritage_among(cs, cs.len(), idx, src, s1.2)
        };
        lemma_walk_among_linked(cs, cs.len(), Some(idx), src, path, (s1.0, s1.1, r));
    } else if k == "type_alias_declaration"@ || k == "enum_declaration"@ {
        let s1 = match d {
            Some(v) => add_symbol(st, v, parent),
            None => st,
        };
        assert(linked(s1));
        lemma_walk_among_linked(cs, cs.len(), parent, src, path, s1);
    } else if k == "import_statement"@ {
        let from = match first_of_kind(cs, "string"@) {
            Some(s) => Some(unquote(node_text(s, src))),
            None => None,
        };
        let idx = st.0.len() as int;
        let r1 = match first_of_kind(cs, "import_clause"@) {
            Some(c) => import_names(c, idx, from, src, st.2),
            None => st.2,
        };
        match first_of_kind(cs, "import_clause"@) {
            Some(c) => lemma_import_names_within(c, idx, from, src, st.2, idx + 1),
            None => {},
        }
        match first_of_kind(cs, "named_imports"@) {
            Some(c) => lemma_import_names_within(c, idx, from, src, r1, idx + 1),
            None => {},
        }
        lemma_walk_among_linked(cs, cs.len(), parent, src, path, import_into(n, src, st));
    } else if k == "export_statement"@ {
        lemma_export_among_linked(cs, cs.len(), parent, src, path, st);
    } else if k == "lexical_declaration"@ || k == "variable_declaration"@ {
        lemma_variables_linked(n, cs.len(), exported, prev, parent, src, path, st);
        let s1 = variables_among(n, cs.len(), exported, prev, parent, src, path, st);
        lemma_walk_among_linked(cs, cs.len(), parent, src, path, s1);
    } else {
        lemma_walk_among_linked(cs, cs.len(), parent, src, path, st);
    }
}

proof fn lemma_walk_among_linked(
    cs: Seq<SyntaxNode>,
    k: nat,
    parent: Option<int>,
    src: Seq<u8>,
    path: Seq<char>,
    st: Extraction,
)
    requires
        linked(st),
        parent_within(parent, st.0.len() as int),
    ensures
        linked(walk_among(cs, k, parent, src, path, st)),
        st.0.len() <= walk_among(cs, k, parent, src, path, st).0.len(),
    decreases cs, k,
{
    if k == 0 || k > cs.len() {
    } else {
        lemma_walk_among_linked(cs, (k - 1) as nat, parent, src, path, st);
        let s = walk_among(cs, (k - 1) as nat, parent, src, path, st);
        lemma_walk_linked(cs[k - 1], false, prev_of(cs, k), parent, src, path, s);
    }
}

proof fn lemma_export_among_linked(
    cs: Seq<SyntaxNode>,
    k: nat,
    parent: Option<int>,
    src: Seq<u8>,
    path: Seq<char>,
    st: Extraction,
)
    requires
        linked(st),
        parent_within(parent, st.0.len() as int),
    ensures
        linked(export_among(cs, k, parent, src, path, st)),
        st.0.len() <= export_among(cs, k, parent, src, path, st).0.len(),
    decreases cs, k,
{
    if k == 0 || k > cs.len() {
    } else {
        lemma_export_among_linked(cs, (k - 1) as nat, parent, src, path, st);
        let s = export_among(cs, (k - 1) as nat, parent, src, path, st);
        lemma_walk_linked(cs[k - 1], true, prev_of(cs, k), parent, src, path, s);
    }
}

/// Every relationship and reference the script extractor records points at
/// symbols it recorded: containment joins a recorded symbol to a later one,
/// and calls, heritage and imports come from the symbol being recorded.
pub proof fn lemma_script_extraction_linked(tree: SyntaxNode, src: Seq<u8>, path: Seq<char>)
    ensures
        linked(ts_walk(tree, false, None, None, src, path, (seq![], seq![], seq![]))),
{
    lemma_walk_linked(tree, false, None, None, src, path, (seq![], seq![], seq![]));
}

} // verus!
