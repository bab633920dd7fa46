//! Python: functions and methods (with the calls in their bodies and the
//! branch, loop or handler each call sits in), classes with their bases,
//! imports and module-level constants; then environment variable reads and
//! web routes found by pattern.
use vstd::prelude::*;

use crate::indexer::extractor::{
    edge_views, node_views, opt_chars, ref_views, EdgeView, ExtractedEdge, ExtractedFile, ExtractedNode,
    NodeView, RefView, UnresolvedRef,
};
use crate::indexer::languages::patterns::{captures_view, group_texts, matches_exec, matches_of, push_group_texts};
use crate::indexer::languages::shared::{
    ends_with_exec, extraction_of, first_line, first_line_exec, make_ref, make_symbol, push_contains, push_node,
    push_ref, qualify, qualify_exec, reference, starts_with_exec, symbol, with_contains, Extraction, linked,
    parent_within, refs_within,
};
use crate::indexer::languages::typescript::{add_symbol, opt_index};
use crate::indexer::resolver::ends_with;
use crate::indexer::scanner::is_prefix_of;
use crate::indexer::syntax::{
    find_child_by_kind, first_of_kind, lemma_rows_fit_child, node_text, parse_syntax, rows_fit, rows_fit_exec,
    syntax_tree, text_of, SyntaxNode,
};
use crate::text::{
    append_chars, char_is_uppercase, chars_of, dedup, is_upper, same_text, str_to_uppercase, string_of,
    strip_char, strip_char_exec, uppercase, views,
};
use crate::types::{EdgeKind, Language, NodeKind};
use vstd::utf8::encode_utf8;

verus! {

/// The docstring of a definition: the string that opens its body block,
/// without the double and then single quotes at its ends.
pub open spec fn docstring_of(n: SyntaxNode, src: Seq<u8>) -> Option<Seq<char>> {
    match first_of_kind(n.children@, "block"@) {
        Some(b) => if b.children@.len() > 0 && b.children@[0].kind@ == "expression_statement"@
            && b.children@[0].children@.len() > 0 && b.children@[0].children@[0].kind@ == "string"@ {
            Some(strip_char(strip_char(node_text(b.children@[0].children@[0], src), '"'), '\''))
        } else {
            None
        },
        None => None,
    }
}

/// Visibility by naming convention: `__name` (not `__name__`) is private,
/// `_name` protected, anything else public.
pub open spec fn visibility_of(name: Seq<char>) -> Seq<char> {
    if is_prefix_of("__"@, name) && !ends_with(name, "__"@) {
        "private"@
    } else if is_prefix_of("_"@, name) {
        "protected"@
    } else {
        "public"@
    }
}

/// A `def`: a method when it sits in the body block of a class, else a
/// function; signature `def name(params) -> type`.
pub open spec fn function_symbol(n: SyntaxNode, is_method: bool, src: Seq<u8>, path: Seq<char>) -> Option<NodeView> {
    let cs = n.children@;
    match first_of_kind(cs, "identifier"@) {
        Some(nm) => {
            let name = node_text(nm, src);
            let params = match first_of_kind(cs, "parameters"@) {
                Some(p) => node_text(p, src),
                None => "()"@,
            };
            let ret = match first_of_kind(cs, "type"@) {
                Some(t) => " -> "@ + node_text(t, src),
                None => Seq::<char>::empty(),
            };
            let kind = if is_method {
                NodeKind::Method
            } else {
                NodeKind::Function
            };
            Some(
                symbol(
                    kind,
                    name,
                    Some(qualify(path, name)),
                    Some("def "@ + name + params + ret),
                    docstring_of(n, src),
                    n,
                    Some(visibility_of(name)),
                    false,
                ),
            )
        },
        None => None,
    }
}

/// A `class`, public.
pub open spec fn class_symbol(n: SyntaxNode, src: Seq<u8>, path: Seq<char>) -> Option<NodeView> {
    match first_of_kind(n.children@, "identifier"@) {
        Some(nm) => {
            let name = node_text(nm, src);
            Some(symbol(NodeKind::Class, name, Some(qualify(path, name)), None, docstring_of(n, src), n, Some("public"@), false))
        },
        None => None,
    }
}

/// The plain identifiers among the first `k` nodes of `gs`, each a
/// reference of the given kind from the symbol at `idx`.
pub open spec fn identifiers_among(gs: Seq<SyntaxNode>, k: nat, idx: int, kind: EdgeKind, src: Seq<u8>, refs: Seq<RefView>) -> Seq<RefView>
    decreases k,
{
    if k == 0 || k > gs.len() {
        refs
    } else {
        let r = identifiers_among(gs, (k - 1) as nat, idx, kind, src, refs);
        if gs[k - 1].kind@ == "identifier"@ {
            r.push(reference(idx, node_text(gs[k - 1], src), kind, None, None))
        } else {
            r
        }
    }
}

/// The base classes named in a class's argument list.
pub open spec fn bases_of(n: SyntaxNode, idx: int, src: Seq<u8>, refs: Seq<RefView>) -> Seq<RefView> {
    match first_of_kind(n.children@, "argument_list"@) {
        Some(a) => identifiers_among(a.children@, a.children@.len(), idx, EdgeKind::Extends, src, refs),
        None => refs,
    }
}

/// The label a call inherits from an enclosing node of this kind.
pub open spec fn call_label(k: Seq<char>) -> Option<Seq<char>> {
    if k == "if_statement"@ || k == "elif_clause"@ || k == "conditional_expression"@ {
        Some("conditional"@)
    } else if k == "for_statement"@ || k == "while_statement"@ {
        Some("loop"@)
    } else if k == "except_clause"@ || k == "try_statement"@ {
        Some("error_handler"@)
    } else {
        None
    }
}

/// The calls inside `n`, not looking into nested functions or lambdas: each
/// refers from the symbol at `idx` to its callee's text, with the label of
/// the nearest enclosing branch, loop or handler (`context`, for `n`'s own
/// ancestors inside the function).
pub open spec fn calls_in(n: SyntaxNode, idx: int, context: Option<Seq<char>>, src: Seq<u8>, refs: Seq<RefView>) -> Seq<RefView>
    decreases n, 0nat,
{
    let r = if n.kind@ == "call"@ && n.children@.len() > 0 {
        refs.push(reference(idx, node_text(n.children@[0], src), EdgeKind::Calls, None, context))
    } else {
        refs
    };
    let inner = match call_label(n.kind@) {
        Some(l) => Some(l),
        None => context,
    };
    calls_among(n.children@, n.children@.len(), idx, inner, src, r)
}

/// [`calls_in`] over the first `k` nodes of `cs`.
pub open spec fn calls_among(
    cs: Seq<SyntaxNode>,
    k: nat,
    idx: int,
    context: Option<Seq<char>>,
    src: Seq<u8>,
    refs: Seq<RefView>,
) -> Seq<RefView>
    decreases cs, k,
{
    if k == 0 || k > cs.len() {
        refs
    } else {
        let r = calls_among(cs, (k - 1) as nat, idx, context, src, refs);
        let c = cs[k - 1];
        if c.kind@ == "function_definition"@ || c.kind@ == "lambda"@ {
            r
        } else {
            calls_in(c, idx, context, src, r)
        }
    }
}

/// The names an import statement's first `k` children bring in, from the
/// module of its first dotted name: the leading identifier of each dotted
/// name or aliased import, and each plain identifier.
pub open spec fn imported_among(
    cs: Seq<SyntaxNode>,
    k: nat,
    idx: int,
    module: Option<Seq<char>>,
    src: Seq<u8>,
    refs: Seq<RefView>,
) -> Seq<RefView>
    decreases k,
{
    if k == 0 || k > cs.len() {
        refs
    } else {
        let r = imported_among(cs, (k - 1) as nat, idx, module, src, refs);
        let c = cs[k - 1];
        if c.kind@ == "aliased_import"@ || c.kind@ == "dotted_name"@ {
            if c.children@.len() > 0 && c.children@[0].kind@ == "identifier"@ {
                r.push(reference(idx, node_text(c.children@[0], src), EdgeKind::Imports, module, None))
            } else {
                r
            }
        } else if c.kind@ == "identifier"@ {
            r.push(reference(idx, node_text(c, src), EdgeKind::Imports, module, None))
        } else {
            r
        }
    }
}

/// An import statement: a symbol named after its first line and the names
/// it brings in.
pub open spec fn import_into(n: SyntaxNode, src: Seq<u8>, st: Extraction) -> Extraction {
    let cs = n.children@;
    let module = match first_of_kind(cs, "dotted_name"@) {
        Some(d) => Some(node_text(d, src)),
        None => None,
    };
    let idx = st.0.len() as int;
    (
        st.0.push(symbol(NodeKind::Import, first_line(node_text(n, src)), None, None, None, n, None, false)),
        st.1,
        imported_among(cs, cs.len(), idx, module, src, st.2),
    )
}

/// Whether every character is uppercase or an underscore.
pub open spec fn constant_name(s: Seq<char>) -> bool {
    forall|i: int| 0 <= i < s.len() ==> is_upper(#[trigger] s[i]) || s[i] == '_'
}

/// The assignment a statement makes (itself, or the first child of an
/// expression statement).
pub open spec fn assignment_node(n: SyntaxNode) -> Option<SyntaxNode> {
    if n.kind@ == "expression_statement"@ {
        if n.children@.len() > 0 {
            Some(n.children@[0])
        } else {
            None
        }
    } else {
        Some(n)
    }
}

/// A module-level constant: an assignment to an all-uppercase name, with
/// its first line as signature.
pub open spec fn constant_symbol(n: SyntaxNode, src: Seq<u8>, path: Seq<char>) -> Option<NodeView> {
    match assignment_node(n) {
        Some(a) => if a.kind@ == "assignment"@ && a.children@.len() > 0 && a.children@[0].kind@ == "identifier"@
            && constant_name(node_text(a.children@[0], src)) {
            let name = node_text(a.children@[0], src);
            Some(
                symbol(
                    NodeKind::Constant,
                    name,
                    Some(qualify(path, name)),
                    Some(first_line(node_text(a, src))),
                    None,
                    a,
                    Some("public"@),
                    false,
                ),
            )
        } else {
            None
        },
        None => None,
    }
}

/// Walks a subtree in pre-order. `in_class_block`: the node sits in the
/// body block of a class (so a `def` there is a method); `parent_is_class`:
/// the node's parent is a class definition; `parent`: the index of the
/// enclosing symbol.
pub open spec fn py_walk(
    n: SyntaxNode,
    in_class_block: bool,
    parent_is_class: bool,
    parent: Option<int>,
    src: Seq<u8>,
    path: Seq<char>,
    st: Extraction,
) -> Extraction
    decreases n, 0nat,
{
    let k = n.kind@;
    let cs = n.children@;
    let child_in_block = k == "block"@ && parent_is_class;
    let child_parent_class = k == "class_definition"@;
    if k == "function_definition"@ && function_symbol(n, in_class_block, src, path) is Some {
        let idx = st.0.len() as int;
        let s1 = add_symbol(st, function_symbol(n, in_class_block, src, path)->0, parent);
        let s2 = (s1.0, s1.1, calls_in(n, idx, None, src, s1.2));
        py_walk_among(cs, cs.len(), child_in_block, child_parent_class, Some(idx), src, path, s2)
    } else if k == "class_definition"@ && class_symbol(n, src, path) is Some {
        let idx = st.0.len() as int;
        let s1 = add_symbol(st, class_symbol(n, src, path)->0, parent);
        let s2 = (s1.0, s1.1, bases_of(n, idx, src, s1.2));
        py_walk_among(cs, cs.len(), child_in_block, child_parent_class, Some(idx), src, path, s2)
    } else if k == "import_statement"@ || k == "import_from_statement"@ {
        py_walk_among(cs, cs.len(), child_in_block, child_parent_class, parent, src, path, import_into(n, src, st))
    } else if (k == "assignment"@ || k == "expression_statement"@) && parent is None && constant_symbol(n, src, path) is Some {
        let s1 = (st.0.push(constant_symbol(n, src, path)->0), st.1, st.2);
        py_walk_among(cs, cs.len(), child_in_block, child_parent_class, parent, src, path, s1)
    } else {
        py_walk_among(cs, cs.len(), child_in_block, child_parent_class, parent, src, path, st)
    }
}

/// [`py_walk`] over the first `k` nodes of `cs`.
pub open spec fn py_walk_among(
    cs: Seq<SyntaxNode>,
    k: nat,
    in_class_block: bool,
    parent_is_class: bool,
    parent: Option<int>,
    src: Seq<u8>,
    path: Seq<char>,
    st: Extraction,
) -> Extraction
    decreases cs, k,
{
    if k == 0 || k > cs.len() {
        st
    } else {
        py_walk(
            cs[k - 1],
            in_class_block,
            parent_is_class,
            parent,
            src,
            path,
            py_walk_among(cs, (k - 1) as nat, in_class_block, parent_is_class, parent, src, path, st),
        )
    }
}

/// `os.environ['NAME']`.
pub open spec fn environ_index_pattern() -> Seq<char> {
    "os\\.environ\\[['\"]([A-Z_][A-Z0-9_]*)['\"]\\]"@
}

/// `os.environ.get('NAME'`.
pub open spec fn environ_get_pattern() -> Seq<char> {
    "os\\.environ\\.get\\(\\s*['\"]([A-Z_][A-Z0-9_]*)['\"]"@
}

/// `os.getenv('NAME'`.
pub open spec fn getenv_pattern() -> Seq<char> {
    "os\\.getenv\\(\\s*['\"]([A-Z_][A-Z0-9_]*)['\"]"@
}

/// The environment variables a text reads, in order of the three patterns
/// and of their matches, each once.
pub open spec fn env_reads(text: Seq<char>) -> Seq<Seq<char>> {
    dedup(
        group_texts(matches_of(environ_index_pattern(), text), 1) + group_texts(matches_of(environ_get_pattern(), text), 1)
            + group_texts(matches_of(getenv_pattern(), text), 1),
    )
}

/// The first function or method among the symbols.
pub open spec fn first_function(nodes: Seq<NodeView>) -> Option<int>
    decreases nodes.len(),
{
    if nodes.len() == 0 {
        None
    } else {
        match first_function(nodes.drop_last()) {
            Some(i) => Some(i),
            None => if nodes.last().kind == NodeKind::Function || nodes.last().kind == NodeKind::Method {
                Some(nodes.len() - 1)
            } else {
                None
            },
        }
    }
}

/// The last function or method among the symbols.
pub open spec fn last_function(nodes: Seq<NodeView>) -> Option<int>
    decreases nodes.len(),
{
    if nodes.len() == 0 {
        None
    } else if nodes.last().kind == NodeKind::Function || nodes.last().kind == NodeKind::Method {
        Some(nodes.len() - 1)
    } else {
        last_function(nodes.drop_last())
    }
}

/// An environment variable symbol (no position).
pub open spec fn env_symbol(name: Seq<char>) -> NodeView {
    NodeView {
        kind: NodeKind::EnvVar,
        name,
        qualified_name: Some("env::"@ + name),
        signature: None,
        docstring: None,
        line_start: 0,
        line_end: 0,
        col_start: 0,
        col_end: 0,
        visibility: None,
        is_export: false,
        metadata: None,
    }
}

/// The environment variables read in the text, each a symbol read by the
/// first function of the file, if any.
pub open spec fn env_into(text: Seq<char>, st: Extraction) -> Extraction {
    env_records(env_reads(text), first_function(st.0), st)
}

/// Flask and FastAPI route decorators: `@app.route('/p')`, `@router.get('/p')`...
pub open spec fn decorator_pattern() -> Seq<char> {
    "@(?:app|router|bp|blueprint)\\.(route|get|post|put|delete|patch|head|options)\\(\\s*['\"]([^'\"]*)['\"]\\s*"@
}

/// Django URL patterns: `path('route/', view)`.
pub open spec fn django_pattern() -> Seq<char> {
    "path\\(\\s*['\"]([^'\"]*)['\"]\\s*,"@
}

/// A route found in the text: (method, path, declared by a decorator).
pub type Route = (Seq<char>, Seq<char>, bool);

/// The routes the decorators declare: `route` means `GET`, other methods
/// are uppercased.
pub open spec fn decorator_routes(caps: Seq<Seq<Option<Seq<char>>>>) -> Seq<Route>
    decreases caps.len(),
{
    if caps.len() == 0 {
        seq![]
    } else {
        let r = decorator_routes(caps.drop_last());
        let c = caps.last();
        if c.len() > 2 && c[1] is Some && c[2] is Some {
            let m = if c[1]->0 == "route"@ {
                "GET"@
            } else {
                uppercase(c[1]->0)
            };
            r.push((m, c[2]->0, true))
        } else {
            r
        }
    }
}

/// The `GET` routes of Django URL patterns.
pub open spec fn django_routes(caps: Seq<Seq<Option<Seq<char>>>>) -> Seq<Route> {
    group_texts(caps, 1).map_values(|p: Seq<char>| ("GET"@, p, false))
}

/// The routes of a file: its decorators, then, in a `urls.py`, its URL
/// patterns.
pub open spec fn routes_of(text: Seq<char>, path: Seq<char>) -> Seq<Route> {
    decorator_routes(matches_of(decorator_pattern(), text)) + if ends_with(path, "urls.py"@) {
        django_routes(matches_of(django_pattern(), text))
    } else {
        seq![]
    }
}

/// An API endpoint symbol for `method path` (no position).
pub open spec fn endpoint_symbol(method: Seq<char>, route: Seq<char>, path: Seq<char>) -> NodeView {
    NodeView {
        kind: NodeKind::ApiEndpoint,
        name: method + " "@ + route,
        qualified_name: Some(path + "::api::"@ + route),
        signature: None,
        docstring: None,
        line_start: 0,
        line_end: 0,
        col_start: 0,
        col_end: 0,
        visibility: None,
        is_export: false,
        metadata: Some(seq![("api_method"@, method), ("api_path"@, route)]),
    }
}

/// The first `k` routes, each `method:path` once: an endpoint symbol, and
/// for a decorator the `defines_api` relationship from the last function
/// recorded before it. The third component is the keys seen.
pub open spec fn endpoints_among(routes: Seq<Route>, k: nat, path: Seq<char>, st: (Seq<NodeView>, Seq<EdgeView>, Seq<Seq<char>>)) -> (
    Seq<NodeView>,
    Seq<EdgeView>,
    Seq<Seq<char>>,
)
    decreases k,
{
    if k == 0 || k > routes.len() {
        st
    } else {
        let s = endpoints_among(routes, (k - 1) as nat, path, st);
        let (m, p, decorated) = routes[k - 1];
        let key = m + ":"@ + p;
        if s.2.contains(key) {
            s
        } else {
            let idx = s.0.len() as int;
            let nodes = s.0.push(endpoint_symbol(m, p, path));
            let edges = if decorated && last_function(nodes) is Some && last_function(nodes)->0 < idx {
                s.1.push(
                    EdgeView {
                        source_idx: last_function(nodes)->0,
                        target_idx: idx,
                        kind: EdgeKind::DefinesApi,
                        confidence: 90,
                        context: None,
                    },
                )
            } else {
                s.1
            };
            (nodes, edges, s.2.push(key))
        }
    }
}

/// The endpoints of a file added to an extraction.
pub open spec fn endpoints_into(text: Seq<char>, path: Seq<char>, st: Extraction) -> Extraction {
    let routes = routes_of(text, path);
    let e = endpoints_among(routes, routes.len(), path, (st.0, st.1, seq![]));
    (e.0, e.1, st.2)
}

/// Everything extracted from a Python file: the walk from the root, then
/// environment variable reads, then endpoints.
pub open spec fn python_extraction(tree: SyntaxNode, text: Seq<char>, src: Seq<u8>, path: Seq<char>) -> Extraction {
    endpoints_into(text, path, env_into(text, py_walk(tree, false, false, None, src, path, (seq![], seq![], seq![]))))
}

/// The docstring of a definition, as [`docstring_of`] says.
fn docstring_exec(n: &SyntaxNode, source: &str) -> (r: Option<String>)
    ensures
        opt_chars(r) == docstring_of(*n, encode_utf8(source@)),
{
    let b = match find_child_by_kind(n, "block") {
        Some(b) => b,
        None => return None,
    };
    if b.children.len() > 0 && same_text(b.children[0].kind.as_str(), "expression_statement") {
        let e = &b.children[0];
        if e.children.len() > 0 && same_text(e.children[0].kind.as_str(), "string") {
            let t = chars_of(text_of(&e.children[0], source).as_str());
            let once = strip_char_exec(&t, '"');
            return Some(string_of(&strip_char_exec(&once, '\'')));
        }
    }
    None
}

/// Visibility by naming convention, as [`visibility_of`] says.
fn visibility_exec(name: &str) -> (r: String)
    ensures
        r@ == visibility_of(name@),
{
    if starts_with_exec(name, "__") && !ends_with_exec(name, "__") {
        "private".to_string()
    } else if starts_with_exec(name, "_") {
        "protected".to_string()
    } else {
        "public".to_string()
    }
}

/// A `def`, as [`function_symbol`] says.
fn function_symbol_exec(n: &SyntaxNode, is_method: bool, source: &str, path: &str) -> (r: Option<ExtractedNode>)
    requires
        n.start_row < usize::MAX,
        n.end_row < usize::MAX,
    ensures
        match r {
            Some(e) => function_symbol(*n, is_method, encode_utf8(source@), path@) == Some(e@),
            None => function_symbol(*n, is_method, encode_utf8(source@), path@) is None,
        },
{
    let nm = match find_child_by_kind(n, "identifier") {
        Some(x) => x,
        None => return None,
    };
    let name = text_of(nm, source);
    let mut sig = chars_of("def ");
    append_chars(&mut sig, &chars_of(name.as_str()));
    match find_child_by_kind(n, "parameters") {
        Some(p) => append_chars(&mut sig, &chars_of(text_of(p, source).as_str())),
        None => append_chars(&mut sig, &chars_of("()")),
    }
    let ghost head = sig@;
    match find_child_by_kind(n, "type") {
        Some(t) => {
            append_chars(&mut sig, &chars_of(" -> "));
            append_chars(&mut sig, &chars_of(text_of(t, source).as_str()));
            assert(sig@ =~= head + (" -> "@ + node_text(*t, encode_utf8(source@))));
        },
        None => {
            assert(sig@ =~= head + Seq::<char>::empty());
        },
    }
    let kind = if is_method {
        NodeKind::Method
    } else {
        NodeKind::Function
    };
    let q = qualify_exec(path, name.as_str());
    let vis = visibility_exec(name.as_str());
    let doc = docstring_exec(n, source);
    Some(make_symbol(kind, name, Some(q), Some(string_of(&sig)), doc, n, Some(vis), false))
}

/// A `class`, as [`class_symbol`] says.
fn class_symbol_exec(n: &SyntaxNode, source: &str, path: &str) -> (r: Option<ExtractedNode>)
    requires
        n.start_row < usize::MAX,
        n.end_row < usize::MAX,
    ensures
        match r {
            Some(e) => class_symbol(*n, encode_utf8(source@), path@) == Some(e@),
            None => class_symbol(*n, encode_utf8(source@), path@) is None,
        },
{
    let nm = match find_child_by_kind(n, "identifier") {
        Some(x) => x,
        None => return None,
    };
    let name = text_of(nm, source);
    let q = qualify_exec(path, name.as_str());
    let doc = docstring_exec(n, source);
    Some(make_symbol(NodeKind::Class, name, Some(q), None, doc, n, Some("public".to_string()), false))
}

/// Records the base classes of a class, as [`bases_of`] says.
fn bases_exec(n: &SyntaxNode, idx: usize, source: &str, refs: &mut Vec<UnresolvedRef>)
    ensures
        ref_views(final(refs)@) == bases_of(*n, idx as int, encode_utf8(source@), ref_views(old(refs)@)),
{
    let a = match find_child_by_kind(n, "argument_list") {
        Some(a) => a,
        None => return,
    };
    let ghost src = encode_utf8(source@);
    let ghost r0 = ref_views(refs@);
    let mut i: usize = 0;
    while i < a.children.len()
        invariant
            i <= a.children@.len(),
            src == encode_utf8(source@),
            ref_views(refs@) == identifiers_among(a.children@, i as nat, idx as int, EdgeKind::Extends, src, r0),
        decreases a.children.len() - i,
    {
        let g = &a.children[i];
        if same_text(g.kind.as_str(), "identifier") {
            push_ref(refs, make_ref(idx, text_of(g, source), EdgeKind::Extends, None, None));
        }
        i += 1;
    }
}

/// The label a call inherits from an enclosing node of this kind.
fn call_label_exec(k: &str) -> (r: Option<String>)
    ensures
        opt_chars(r) == call_label(k@),
{
    if same_text(k, "if_statement") || same_text(k, "elif_clause") || same_text(k, "conditional_expression") {
        Some("conditional".to_string())
    } else if same_text(k, "for_statement") || same_text(k, "while_statement") {
        Some("loop".to_string())
    } else if same_text(k, "except_clause") || same_text(k, "try_statement") {
        Some("error_handler".to_string())
    } else {
        None
    }
}

/// Records the calls inside `n`, as [`calls_in`] says.
fn calls_in_exec(n: &SyntaxNode, idx: usize, context: &Option<String>, source: &str, refs: &mut Vec<UnresolvedRef>)
    ensures
        ref_views(final(refs)@) == calls_in(*n, idx as int, opt_chars(*context), encode_utf8(source@), ref_views(old(refs)@)),
    decreases n,
{
    let ghost src = encode_utf8(source@);
    if same_text(n.kind.as_str(), "call") && n.children.len() > 0 {
        push_ref(refs, make_ref(idx, text_of(&n.children[0], source), EdgeKind::Calls, None, context.clone()));
    }
    let inner = match call_label_exec(n.kind.as_str()) {
        Some(l) => Some(l),
        None => context.clone(),
    };
    let ghost r0 = ref_views(refs@);
    let mut i: usize = 0;
    while i < n.children.len()
        invariant
            i <= n.children@.len(),
            src == encode_utf8(source@),
            ref_views(refs@) == calls_among(n.children@, i as nat, idx as int, opt_chars(inner), src, r0),
        decreases n.children.len() - i,
    {
        let c = &n.children[i];
        if !(same_text(c.kind.as_str(), "function_definition") || same_text(c.kind.as_str(), "lambda")) {
            calls_in_exec(c, idx, &inner, source, refs);
        }
        i += 1;
    }
}

/// Records an import statement, as [`import_into`] says.
fn import_into_exec(n: &SyntaxNode, source: &str, nodes: &mut Vec<ExtractedNode>, refs: &mut Vec<UnresolvedRef>)
    requires
        n.start_row < usize::MAX,
        n.end_row < usize::MAX,
    ensures
        ({
            let st = import_into(*n, encode_utf8(source@), (node_views(old(nodes)@), seq![], ref_views(old(refs)@)));
            node_views(final(nodes)@) == st.0 && ref_views(final(refs)@) == st.2
        }),
{
    let ghost src = encode_utf8(source@);
    let module = match find_child_by_kind(n, "dotted_name") {
        Some(d) => Some(text_of(d, source)),
        None => None,
    };
    let idx = nodes.len();
    let ghost r0 = ref_views(refs@);
    let mut i: usize = 0;
    while i < n.children.len()
        invariant
            i <= n.children@.len(),
            src == encode_utf8(source@),
            ref_views(refs@) == imported_among(n.children@, i as nat, idx as int, opt_chars(module), src, r0),
        decreases n.children.len() - i,
    {
        let c = &n.children[i];
        let k = c.kind.as_str();
        if same_text(k, "aliased_import") || same_text(k, "dotted_name") {
            if c.children.len() > 0 && same_text(c.children[0].kind.as_str(), "identifier") {
                push_ref(refs, make_ref(idx, text_of(&c.children[0], source), EdgeKind::Imports, module.clone(), None));
            }
        } else if same_text(k, "identifier") {
            push_ref(refs, make_ref(idx, text_of(c, source), EdgeKind::Imports, module.clone(), None));
        }
        i += 1;
    }
    let name = first_line_exec(text_of(n, source).as_str());
    push_node(nodes, make_symbol(NodeKind::Import, name, None, None, None, n, None, false));
}

/// Whether every character is uppercase or an underscore.
fn constant_name_exec(s: &str) -> (r: bool)
    ensures
        r == constant_name(s@),
{
    let v = chars_of(s);
    let mut i: usize = 0;
    while i < v.len()
        invariant
            i <= v@.len(),
            v@ == s@,
            forall|k: int| 0 <= k < i ==> is_upper(#[trigger] v@[k]) || v@[k] == '_',
        decreases v.len() - i,
    {
        if !(char_is_uppercase(v[i]) || v[i] == '_') {
            return false;
        }
        i += 1;
    }
    true
}

/// A module-level constant, as [`constant_symbol`] says.
fn constant_symbol_exec(n: &SyntaxNode, source: &str, path: &str) -> (r: Option<ExtractedNode>)
    requires
        rows_fit(*n),
    ensures
        match r {
            Some(e) => constant_symbol(*n, encode_utf8(source@), path@) == Some(e@),
            None => constant_symbol(*n, encode_utf8(source@), path@) is None,
        },
{
    let a = if same_text(n.kind.as_str(), "expression_statement") {
        if n.children.len() > 0 {
            proof {
                lemma_rows_fit_child(n.children@, n.children@.len(), 0);
            }
            &n.children[0]
        } else {
            return None;
        }
    } else {
        n
    };
    if !(same_text(a.kind.as_str(), "assignment") && a.children.len() > 0 && same_text(a.children[0].kind.as_str(), "identifier")) {
        return None;
    }
    let name = text_of(&a.children[0], source);
    if !constant_name_exec(name.as_str()) {
        return None;
    }
    let q = qualify_exec(path, name.as_str());
    let sig = first_line_exec(text_of(a, source).as_str());
    Some(make_symbol(NodeKind::Constant, name, Some(q), Some(sig), None, a, Some("public".to_string()), false))
}

/// Walks the subtree at `n` as [`py_walk`] says.
fn walk(
    n: &SyntaxNode,
    in_class_block: bool,
    parent_is_class: bool,
    parent: Option<usize>,
    source: &str,
    path: &str,
    nodes: &mut Vec<ExtractedNode>,
    edges: &mut Vec<ExtractedEdge>,
    refs: &mut Vec<UnresolvedRef>,
)
    requires
        rows_fit(*n),
    ensures
        extraction_of(final(nodes)@, final(edges)@, final(refs)@) == py_walk(
            *n,
            in_class_block,
            parent_is_class,
            opt_index(parent),
            encode_utf8(source@),
            path@,
            extraction_of(old(nodes)@, old(edges)@, old(refs)@),
        ),
    decreases n,
{
    let ghost src = encode_utf8(source@);
    let k = n.kind.as_str();
    let child_in_block = same_text(k, "block") && parent_is_class;
    let child_parent_class = same_text(k, "class_definition");
    let mut scope = parent;
    let mut done = false;
    if same_text(k, "function_definition") {
        if let Some(e) = function_symbol_exec(n, in_class_block, source, path) {
            let idx = nodes.len();
            push_node(nodes, e);
            push_contains(edges, parent, idx);
            calls_in_exec(n, idx, &None, source, refs);
            scope = Some(idx);
            done = true;
        }
    } else if child_parent_class {
        if let Some(e) = class_symbol_exec(n, source, path) {
            let idx = nodes.len();
            push_node(nodes, e);
            push_contains(edges, parent, idx);
            bases_exec(n, idx, source, refs);
            scope = Some(idx);
            done = true;
        }
    }
    if !done {
        if same_text(k, "import_statement") || same_text(k, "import_from_statement") {
            let ghost e0 = edges@;
            import_into_exec(n, source, nodes, refs);
            assert(edge_views(edges@) == edge_views(e0));
        } else if (same_text(k, "assignment") || same_text(k, "expression_statement")) && parent.is_none() {
            if let Some(e) = constant_symbol_exec(n, source, path) {
                push_node(nodes, e);
            }
        }
    }
    let ghost st1 = extraction_of(nodes@, edges@, refs@);
    let mut i: usize = 0;
    while i < n.children.len()
        invariant
            i <= n.children@.len(),
            src == encode_utf8(source@),
            rows_fit(*n),
            extraction_of(nodes@, edges@, refs@) == py_walk_among(
                n.children@,
                i as nat,
                child_in_block,
                child_parent_class,
                opt_index(scope),
                src,
                path@,
                st1,
            ),
        decreases n.children.len() - i,
    {
        proof {
            lemma_rows_fit_child(n.children@, n.children@.len(), i as int);
        }
        walk(&n.children[i], child_in_block, child_parent_class, scope, source, path, nodes, edges, refs);
        i += 1;
    }
}

proof fn lemma_first_function_extend(s: Seq<NodeView>, k: int)
    requires
        0 <= k <= s.len(),
        first_function(s.take(k)) is Some,
    ensures
        first_function(s) == first_function(s.take(k)),
    decreases s.len() - k,
{
    if k < s.len() {
        assert(s.take(k + 1).drop_last() =~= s.take(k));
        lemma_first_function_extend(s, k + 1);
    } else {
        assert(s.take(k) =~= s);
    }
}

/// The first function or method among the symbols, as [`first_function`] says.
fn first_function_exec(nodes: &Vec<ExtractedNode>) -> (r: Option<usize>)
    ensures
        opt_index(r) == first_function(node_views(nodes@)),
{
    let ghost nv = node_views(nodes@);
    let mut i: usize = 0;
    assert(nv.take(0) =~= Seq::<NodeView>::empty());
    while i < nodes.len()
        invariant
            i <= nodes@.len(),
            nv == node_views(nodes@),
            first_function(nv.take(i as int)) is None,
        decreases nodes.len() - i,
    {
        assert(nv.take(i + 1).drop_last() =~= nv.take(i as int));
        if nodes[i].kind == NodeKind::Function || nodes[i].kind == NodeKind::Method {
            proof {
                lemma_first_function_extend(nv, i + 1);
            }
            return Some(i);
        }
        i += 1;
    }
    assert(nv.take(i as int) =~= nv);
    None
}

/// The last function or method among the symbols, as [`last_function`] says.
fn last_function_exec(nodes: &Vec<ExtractedNode>) -> (r: Option<usize>)
    ensures
        opt_index(r) == last_function(node_views(nodes@)),
{
    let ghost nv = node_views(nodes@);
    let mut i: usize = nodes.len();
    assert(nv.take(i as int) =~= nv);
    while i > 0
        invariant
            i <= nodes@.len(),
            nv == node_views(nodes@),
            last_function(nv) == last_function(nv.take(i as int)),
        decreases i,
    {
        assert(nv.take(i as int).last() == nv[i - 1]);
        if nodes[i - 1].kind == NodeKind::Function || nodes[i - 1].kind == NodeKind::Method {
            return Some(i - 1);
        }
        assert(nv.take(i as int).drop_last() =~= nv.take(i - 1));
        i -= 1;
    }
    None
}

/// Whether a list of character sequences holds `x`.
fn holds_chars(v: &Vec<Vec<char>>, x: &Vec<char>) -> (r: bool)
    ensures
        r == views(v@).contains(x@),
{
    let mut j: usize = 0;
    while j < v.len()
        invariant
            j <= v@.len(),
            forall|k: int| 0 <= k < j ==> views(v@)[k] != x@,
        decreases v.len() - j,
    {
        if crate::text::eq_chars(&v[j], x) {
            assert(views(v@)[j as int] == x@);
            return true;
        }
        j += 1;
    }
    false
}

/// The environment variable symbol for a name.
fn env_symbol_exec(name: &Vec<char>) -> (e: ExtractedNode)
    ensures
        e@ == env_symbol(name@),
{
    let mut q = chars_of("env::");
    append_chars(&mut q, name);
    ExtractedNode {
        kind: NodeKind::EnvVar,
        name: string_of(name),
        qualified_name: Some(string_of(&q)),
        signature: None,
        docstring: None,
        line_start: 0,
        line_end: 0,
        col_start: 0,
        col_end: 0,
        visibility: None,
        is_export: false,
        metadata: None,
    }
}

/// Symbols for environment variables `names`, after `st`'s, each read by
/// the function at `reader`, if any.
pub open spec fn env_records(names: Seq<Seq<char>>, reader: Option<int>, st: Extraction) -> Extraction {
    let base = st.0.len() as int;
    let edges = match reader {
        Some(f) => st.1 + names.map(
            |j: int, nm: Seq<char>|
                EdgeView { source_idx: f, target_idx: base + j, kind: EdgeKind::ReadsEnv, confidence: 90, context: None },
        ),
        None => st.1,
    };
    (st.0 + names.map_values(|nm: Seq<char>| env_symbol(nm)), edges, st.2)
}

/// The character sequences of a list, each once, in order of first
/// occurrence.
pub fn dedup_chars(all: &Vec<Vec<char>>) -> (r: Vec<Vec<char>>)
    ensures
        views(r@) == dedup(views(all@)),
{
    let ghost av = views(all@);
    let mut uniq: Vec<Vec<char>> = Vec::new();
    let mut i: usize = 0;
    assert(av.take(0) =~= Seq::<Seq<char>>::empty());
    assert(views(uniq@) =~= dedup(av.take(0)));
    while i < all.len()
        invariant
            i <= all@.len(),
            av == views(all@),
            views(uniq@) == dedup(av.take(i as int)),
        decreases all.len() - i,
    {
        assert(av.take(i + 1).drop_last() =~= av.take(i as int));
        assert(av.take(i + 1).last() == all@[i as int]@);
        if !holds_chars(&uniq, &all[i]) {
            let ghost before = views(uniq@);
            uniq.push(crate::text::copy_chars(&all[i]));
            assert(views(uniq@) =~= before.push(all@[i as int]@));
        }
        i += 1;
    }
    assert(av.take(all@.len() as int) =~= av);
    uniq
}

/// Records environment variable symbols for `names`, each read by the
/// function at `reader`, if any, as [`env_records`] says.
pub fn push_env_records(names: &Vec<Vec<char>>, reader: Option<usize>, nodes: &mut Vec<ExtractedNode>, edges: &mut Vec<ExtractedEdge>)
    ensures
        ({
            let st = env_records(views(names@), opt_index(reader), (node_views(old(nodes)@), edge_views(old(edges)@), seq![]));
            node_views(final(nodes)@) == st.0 && edge_views(final(edges)@) == st.1
        }),
{
    let ghost nv = views(names@);
    let ghost n0 = node_views(nodes@);
    let ghost e0 = edge_views(edges@);
    let base = nodes.len();
    let mut j: usize = 0;
    while j < names.len()
        invariant
            j <= names@.len(),
            nv == views(names@),
            base == n0.len(),
            node_views(nodes@) == n0 + nv.take(j as int).map_values(|nm: Seq<char>| env_symbol(nm)),
            edge_views(edges@) == match reader {
                Some(f) => e0 + nv.take(j as int).map(
                    |k: int, nm: Seq<char>|
                        EdgeView { source_idx: f as int, target_idx: base + k, kind: EdgeKind::ReadsEnv, confidence: 90, context: None },
                ),
                None => e0,
            },
        decreases names.len() - j,
    {
        let ghost eb = edge_views(edges@);
        let idx = nodes.len();
        push_node(nodes, env_symbol_exec(&names[j]));
        assert(nv.take(j + 1) =~= nv.take(j as int).push(nv[j as int]));
        assert(node_views(nodes@) =~= n0 + nv.take(j + 1).map_values(|nm: Seq<char>| env_symbol(nm)));
        if let Some(f) = reader {
            edges.push(ExtractedEdge { source_idx: f, target_idx: idx, kind: EdgeKind::ReadsEnv, confidence: 90, context: None });
            assert(edge_views(edges@) =~= eb.push(edges@.last()@));
            assert(edge_views(edges@) =~= e0 + nv.take(j + 1).map(
                |k: int, nm: Seq<char>|
                    EdgeView { source_idx: f as int, target_idx: base + k, kind: EdgeKind::ReadsEnv, confidence: 90, context: None },
            ));
        }
        j += 1;
    }
    assert(nv.take(names@.len() as int) =~= nv);
}

/// Records the environment variables the text reads, as [`env_into`] says.
fn env_exec(source: &str, nodes: &mut Vec<ExtractedNode>, edges: &mut Vec<ExtractedEdge>)
    ensures
        ({
            let st = env_into(source@, (node_views(old(nodes)@), edge_views(old(edges)@), seq![]));
            node_views(final(nodes)@) == st.0 && edge_views(final(edges)@) == st.1
        }),
{
    let mut all: Vec<Vec<char>> = Vec::new();
    push_group_texts(&matches_exec("os\\.environ\\[['\"]([A-Z_][A-Z0-9_]*)['\"]\\]", source), 1, &mut all);
    push_group_texts(&matches_exec("os\\.environ\\.get\\(\\s*['\"]([A-Z_][A-Z0-9_]*)['\"]", source), 1, &mut all);
    push_group_texts(&matches_exec("os\\.getenv\\(\\s*['\"]([A-Z_][A-Z0-9_]*)['\"]", source), 1, &mut all);
    assert(views(all@) =~= group_texts(matches_of(environ_index_pattern(), source@), 1) + group_texts(
        matches_of(environ_get_pattern(), source@),
        1,
    ) + group_texts(matches_of(getenv_pattern(), source@), 1));
    let names = dedup_chars(&all);
    let ff = first_function_exec(nodes);
    push_env_records(&names, ff, nodes, edges);
}

/// Routes as plain values.
pub open spec fn routes_view(v: Seq<(Vec<char>, Vec<char>, bool)>) -> Seq<Route> {
    v.map_values(|t: (Vec<char>, Vec<char>, bool)| (t.0@, t.1@, t.2))
}

/// The routes of a file, as [`routes_of`] says.
fn routes_exec(source: &str, path: &str) -> (r: Vec<(Vec<char>, Vec<char>, bool)>)
    ensures
        routes_view(r@) == routes_of(source@, path@),
{
    let caps = matches_exec("@(?:app|router|bp|blueprint)\\.(route|get|post|put|delete|patch|head|options)\\(\\s*['\"]([^'\"]*)['\"]\\s*", source);
    let ghost cv = captures_view(caps@);
    let mut r: Vec<(Vec<char>, Vec<char>, bool)> = Vec::new();
    let mut i: usize = 0;
    assert(routes_view(r@) =~= decorator_routes(cv.take(0)));
    while i < caps.len()
        invariant
            i <= caps@.len(),
            cv == captures_view(caps@),
            routes_view(r@) == decorator_routes(cv.take(i as int)),
        decreases caps.len() - i,
    {
        let c = &caps[i];
        assert(cv.take(i + 1).drop_last() =~= cv.take(i as int));
        assert(cv.take(i + 1).last() == cv[i as int]);
        assert(cv[i as int] == c@.map_values(|x: Option<String>| opt_chars(x)));
        let ghost before = routes_view(r@);
        if c.len() > 2 {
            match (&c[1], &c[2]) {
                (Some(m), Some(p)) => {
                    let mm = if same_text(m.as_str(), "route") {
                        chars_of("GET")
                    } else {
                        chars_of(str_to_uppercase(m.as_str()).as_str())
                    };
                    r.push((mm, chars_of(p.as_str()), true));
                    assert(routes_view(r@) =~= before.push((mm@, p@, true)));
                },
                _ => {},
            }
        }
        i += 1;
    }
    assert(cv.take(caps@.len() as int) =~= cv);
    if ends_with_exec(path, "urls.py") {
        let mut ps: Vec<Vec<char>> = Vec::new();
        push_group_texts(&matches_exec("path\\(\\s*['\"]([^'\"]*)['\"]\\s*,", source), 1, &mut ps);
        let ghost pv = views(ps@);
        assert(pv =~= group_texts(matches_of(django_pattern(), source@), 1));
        let ghost head = routes_view(r@);
        let mut j: usize = 0;
        while j < ps.len()
            invariant
                j <= ps@.len(),
                pv == views(ps@),
                routes_view(r@) == head + pv.take(j as int).map_values(|p: Seq<char>| ("GET"@, p, false)),
            decreases ps.len() - j,
        {
            let ghost before = routes_view(r@);
            r.push((chars_of("GET"), crate::text::copy_chars(&ps[j]), false));
            assert(routes_view(r@) =~= before.push(("GET"@, pv[j as int], false)));
            assert(pv.take(j + 1) =~= pv.take(j as int).push(pv[j as int]));
            assert(routes_view(r@) =~= head + pv.take(j + 1).map_values(|p: Seq<char>| ("GET"@, p, false)));
            j += 1;
        }
        assert(pv.take(ps@.len() as int) =~= pv);
    } else {
        assert(routes_view(r@) =~= routes_view(r@) + Seq::<Route>::empty());
    }
    r
}

/// The endpoint symbol for `method route`.
fn endpoint_exec(method: &Vec<char>, route: &Vec<char>, path: &str) -> (e: ExtractedNode)
    ensures
        e@ == endpoint_symbol(method@, route@, path@),
{
    let mut name = crate::text::copy_chars(method);
    append_chars(&mut name, &chars_of(" "));
    append_chars(&mut name, route);
    let mut q = chars_of(path);
    append_chars(&mut q, &chars_of("::api::"));
    append_chars(&mut q, route);
    let meta = vec![("api_method".to_string(), string_of(method)), ("api_path".to_string(), string_of(route))];
    let e = ExtractedNode {
        kind: NodeKind::ApiEndpoint,
        name: string_of(&name),
        qualified_name: Some(string_of(&q)),
        signature: None,
        docstring: None,
        line_start: 0,
        line_end: 0,
        col_start: 0,
        col_end: 0,
        visibility: None,
        is_export: false,
        metadata: Some(meta),
    };
    assert(e@.metadata->0 =~= seq![("api_method"@, method@), ("api_path"@, route@)]);
    e
}

/// Records the endpoints of a file, as [`endpoints_into`] says.
fn endpoints_exec(source: &str, path: &str, nodes: &mut Vec<ExtractedNode>, edges: &mut Vec<ExtractedEdge>)
    ensures
        ({
            let st = endpoints_into(source@, path@, (node_views(old(nodes)@), edge_views(old(edges)@), seq![]));
            node_views(final(nodes)@) == st.0 && edge_views(final(edges)@) == st.1
        }),
{
    let routes = routes_exec(source, path);
    let ghost rv = routes_view(routes@);
    let ghost n0 = node_views(nodes@);
    let ghost e0 = edge_views(edges@);
    let mut seen: Vec<Vec<char>> = Vec::new();
    let mut k: usize = 0;
    while k < routes.len()
        invariant
            k <= routes@.len(),
            rv == routes_view(routes@),
            ({
                let s = endpoints_among(rv, k as nat, path@, (n0, e0, seq![]));
                node_views(nodes@) == s.0 && edge_views(edges@) == s.1 && views(seen@) == s.2
            }),
        decreases routes.len() - k,
    {
        let (m, p, decorated) = &routes[k];
        let mut key = crate::text::copy_chars(m);
        append_chars(&mut key, &chars_of(":"));
        append_chars(&mut key, p);
        if !holds_chars(&seen, &key) {
            let idx = nodes.len();
            push_node(nodes, endpoint_exec(m, p, path));
            if *decorated {
                if let Some(f) = last_function_exec(nodes) {
                    if f < idx {
                        let ghost eb = edge_views(edges@);
                        edges.push(ExtractedEdge { source_idx: f, target_idx: idx, kind: EdgeKind::DefinesApi, confidence: 90, context: None });
                        assert(edge_views(edges@) =~= eb.push(edges@.last()@));
                    }
                }
            }
            let ghost sb = views(seen@);
            seen.push(key);
            assert(views(seen@) =~= sb.push(key@));
        }
        k += 1;
    }
}

/// Symbol extraction for Python.
pub struct PythonExtractor;

/// What extraction yields for a Python tree, with no file facts yet.
pub open spec fn python_file(r: ExtractedFile, tree: SyntaxNode, source: Seq<char>, path: Seq<char>) -> bool {
    &&& r.language == Language::Python
    &&& r.content_hash@.len() == 0
    &&& r.mtime_ns == 0
    &&& r.size_bytes == 0
    &&& r.structure_hash is None
    &&& extraction_of(r.nodes@, r.edges@, r.unresolved_refs@) == python_extraction(tree, source, encode_utf8(source), path)
}

impl PythonExtractor {
    /// The language this extractor handles.
    pub fn language(&self) -> (r: Language)
        ensures
            r == Language::Python,
    {
        Language::Python
    }

    /// Walks the tree in pre-order recording functions and methods (with
    /// the calls in their bodies, each labelled by the branch, loop or
    /// handler it sits in), classes with their bases, imports and
    /// module-level constants; then the environment variables the text
    /// reads and the web routes it declares.
    pub fn extract(&self, tree: &SyntaxNode, source: &str, file_path: &str) -> (r: ExtractedFile)
        requires
            rows_fit(*tree),
        ensures
            python_file(r, *tree, source@, file_path@),
    {
        let mut nodes: Vec<ExtractedNode> = Vec::new();
        let mut edges: Vec<ExtractedEdge> = Vec::new();
        let mut refs: Vec<UnresolvedRef> = Vec::new();
        proof {
            assert(node_views(nodes@) =~= Seq::<NodeView>::empty());
            assert(edge_views(edges@) =~= Seq::<EdgeView>::empty());
            assert(ref_views(refs@) =~= Seq::<RefView>::empty());
        }
        walk(tree, false, false, None, source, file_path, &mut nodes, &mut edges, &mut refs);
        env_exec(source, &mut nodes, &mut edges);
        endpoints_exec(source, file_path, &mut nodes, &mut edges);
        ExtractedFile {
            language: Language::Python,
            content_hash: String::new(),
            mtime_ns: 0,
            size_bytes: 0,
            nodes,
            edges,
            unresolved_refs: refs,
            structure_hash: None,
        }
    }
}

/// Parses a Python text and extracts its symbols; `None` when the parser
/// gives no tree or a row too large for a line number.
pub fn extract_python(source: &str, file_path: &str) -> (r: Option<ExtractedFile>)
    ensures
        match syntax_tree(source@, Language::Python) {
            Some(t) => if rows_fit(t) {
                r matches Some(f) && python_file(f, t, source@, file_path@)
            } else {
                r is None
            },
            None => r is None,
        },
        r matches Some(f) ==> linked(extraction_of(f.nodes@, f.edges@, f.unresolved_refs@)),
{
    match parse_syntax(source, Language::Python) {
        Some(t) => {
            if rows_fit_exec(&t) {
                proof {
                    lemma_python_extraction_linked(t, source@, encode_utf8(source@), file_path@);
                }
                Some(PythonExtractor.extract(&t, source, file_path))
            } else {
                None
            }
        },
        None => None,
    }
}

proof fn lemma_identifiers_within(
    gs: Seq<SyntaxNode>,
    k: nat,
    idx: int,
    kind: EdgeKind,
    src: Seq<u8>,
    refs: Seq<RefView>,
    bound: int,
)
    requires
        refs_within(refs, bound),
        0 <= idx < bound,
    ensures
        refs_within(identifiers_among(gs, k, idx, kind, src, refs), bound),
    decreases k,
{
    if k == 0 || k > gs.len() {
    } else {
        lemma_identifiers_within(gs, (k - 1) as nat, idx, kind, src, refs, bound);
    }
}

proof fn lemma_calls_within(
    n: SyntaxNode,
    idx: int,
    context: Option<Seq<char>>,
    src: Seq<u8>,
    refs: Seq<RefView>,
    bound: int,
)
    requires
        refs_within(refs, bound),
        0 <= idx < bound,
    ensures
        refs_within(calls_in(n, idx, context, src, refs), bound),
    decreases n, 0nat,
{
    let r = if n.kind@ == "call"@ && n.children@.len() > 0 {
        refs.push(reference(idx, node_text(n.children@[0], src), EdgeKind::Calls, None, context))
    } else {
        refs
    };
    assert(refs_within(r, bound));
    let inner = match call_label(n.kind@) {
        Some(l) => Some(l),
        None => context,
    };
    lemma_calls_among_within(n.children@, n.children@.len(), idx, inner, src, r, bound);
}

proof fn lemma_calls_among_within(
    cs: Seq<SyntaxNode>,
    k: nat,
    idx: int,
    context: Option<Seq<char>>,
    src: Seq<u8>,
    refs: Seq<RefView>,
    bound: int,
)
    requires
        refs_within(refs, bound),
        0 <= idx < bound,
    ensures
        refs_within(calls_among(cs, k, idx, context, src, refs), bound),
    decreases cs, k,
{
    if k == 0 || k > cs.len() {
    } else {
        lemma_calls_among_within(cs, (k - 1) as nat, idx, context, src, refs, bound);
        let r = calls_among(cs, (k - 1) as nat, idx, context, src, refs);
        let c = cs[k - 1];
        if !(c.kind@ == "function_definition"@ || c.kind@ == "lambda"@) {
            lemma_calls_within(c, idx, context, src, r, bound);
        }
    }
}

proof fn lemma_imported_within(
    cs: Seq<SyntaxNode>,
    k: nat,
    idx: int,
    module: Option<Seq<char>>,
    src: Seq<u8>,
    refs: Seq<RefView>,
    bound: int,
)
    requires
        refs_within(refs, bound),
        0 <= idx < bound,
    ensures
        refs_within(imported_among(cs, k, idx, module, src, refs), bound),
    decreases k,
{
    if k == 0 || k > cs.len() {
    } else {
        lemma_imported_within(cs, (k - 1) as nat, idx, module, src, refs, bound);
    }
}

proof fn lemma_py_walk_linked(
    n: SyntaxNode,
    in_class_block: bool,
    parent_is_class: bool,
    parent: Option<int>,
    src: Seq<u8>,
    path: Seq<char>,
    st: Extraction,
)
    requires
        linked(st),
        parent_within(parent, st.0.len() as int),
    ensures
        linked(py_walk(n, in_class_block, parent_is_class, parent, src, path, st)),
        st.0.len() <= py_walk(n, in_class_block, parent_is_class, parent, src, path, st).0.len(),
    decreases n, 0nat,
{
    let k = n.kind@;
    let cs = n.children@;
    let child_in_block = k == "block"@ && parent_is_class;
    let child_parent_class = k == "class_definition"@;
    if k == "function_definition"@ && function_symbol(n, in_class_block, src, path) is Some {
        let idx = st.0.len() as int;
        let s1 = add_symbol(st, function_symbol(n, in_class_block, src, path)->0, parent);
        assert(linked(s1));
        lemma_calls_within(n, idx, None, src, s1.2, s1.0.len() as int);
        let s2 = (s1.0, s1.1, calls_in(n, idx, None, src, s1.2));
        lemma_py_walk_among_linked(cs, cs.len(), child_in_block, child_parent_class, Some(idx), src, path, s2);
    } else if k == "class_definition"@ && class_symbol(n, src, path) is Some {
        let idx = st.0.len() as int;
        let s1 = add_symbol(st, class_symbol(n, src, path)->0, parent);
        assert(linked(s1));
        match first_of_kind(n.children@, "argument_list"@) {
            Some(a) => lemma_identifiers_within(
                a.children@,
                a.children@.len(),
                idx,
                EdgeKind::Extends,
                src,
                s1.2,
                s1.0.len() as int,
            ),
            None => {},
        }
        let s2 = (s1.0, s1.1, bases_of(n, idx, src, s1.2));
        lemma_py_walk_among_linked(cs, cs.len(), child_in_block, child_parent_class, Some(idx), src, path, s2);
    } else if k == "import_statement"@ || k == "import_from_statement"@ {
        let module = match first_of_kind(cs, "dotted_name"@) {
            Some(d) => Some(node_text(d, src)),
            None => None,
        };
        let idx = st.0.len() as int;
        lemma_imported_within(cs, cs.len(), idx, module, src, st.2, idx + 1);
        lemma_py_walk_among_linked(
            cs,
            cs.len(),
            child_in_block,
            child_parent_class,
            parent,
            src,
            path,
            import_into(n, src, st),
        );
    } else if (k == "assignment"@ || k == "expression_statement"@) && parent is None && constant_symbol(
        n,
        src,
        path,
    ) is Some {
        let s1 = (st.0.push(constant_symbol(n, src, path)->0), st.1, st.2);
        lemma_py_walk_among_linked(cs, cs.len(), child_in_block, child_parent_class, parent, src, path, s1);
    } else {
        lemma_py_walk_among_linked(cs, cs.len(), child_in_block, child_parent_class, parent, src, path, st);
    }
}

proof fn lemma_py_walk_among_linked(
    cs: Seq<SyntaxNode>,
    k: nat,
    in_class_block: bool,
    parent_is_class: bool,
    parent: Option<int>,
    src: Seq<u8>,
    path: Seq<char>,
    st: Extraction,
)
    requires
        linked(st),
        parent_within(parent, st.0.len() as int),
    ensures
        linked(py_walk_among(cs, k, in_class_block, parent_is_class, parent, src, path, st)),
        st.0.len() <= py_walk_among(cs, k, in_class_block, parent_is_class, parent, src, path, st).0.len(),
    decreases cs, k,
{
    if k == 0 || k > cs.len() {
    } else {
        lemma_py_walk_among_linked(cs, (k - 1) as nat, in_class_block, parent_is_class, parent, src, path, st);
        let s = py_walk_among(cs, (k - 1) as nat, in_class_block, parent_is_class, parent, src, path, st);
        lemma_py_walk_linked(cs[k - 1], in_class_block, parent_is_class, parent, src, path, s);
    }
}

proof fn lemma_first_function_within(nodes: Seq<NodeView>)
    ensures
        parent_within(first_function(nodes), nodes.len() as int),
    decreases nodes.len(),
{
    if nodes.len() > 0 {
        lemma_first_function_within(nodes.drop_last());
    }
}

proof fn lemma_last_function_within(nodes: Seq<NodeView>)
    ensures
        parent_within(last_function(nodes), nodes.len() as int),
    decreases nodes.len(),
{
    if nodes.len() > 0 {
        lemma_last_function_within(nodes.drop_last());
    }
}

/// Recording environment variables read by a recorded symbol, if any, keeps
/// every relationship and reference pointing at recorded symbols.
pub proof fn lemma_env_records_linked(names: Seq<Seq<char>>, reader: Option<int>, st: Extraction)
    requires
        linked(st),
        parent_within(reader, st.0.len() as int),
    ensures
        linked(env_records(names, reader, st)),
{
    let r = env_records(names, reader, st);
    let n = r.0.len() as int;
    assert(n == st.0.len() + names.len());
    assert forall|i: int| 0 <= i < r.1.len() implies 0 <= #[trigger] r.1[i].source_idx < n && 0 <= r.1[i].target_idx < n by {
        if i >= st.1.len() {
            assert(reader is Some);
        }
    }
}

proof fn lemma_endpoints_among_linked(
    routes: Seq<Route>,
    k: nat,
    path: Seq<char>,
    st: (Seq<NodeView>, Seq<EdgeView>, Seq<Seq<char>>),
    refs: Seq<RefView>,
)
    requires
        linked((st.0, st.1, refs)),
    ensures
        linked(
            (
                endpoints_among(routes, k, path, st).0,
                endpoints_among(routes, k, path, st).1,
                refs,
            ),
        ),
        st.0.len() <= endpoints_among(routes, k, path, st).0.len(),
    decreases k,
{
    if k == 0 || k > routes.len() {
    } else {
        lemma_endpoints_among_linked(routes, (k - 1) as nat, path, st, refs);
        let s = endpoints_among(routes, (k - 1) as nat, path, st);
        let (m, p, decorated) = routes[k - 1];
        let nodes = s.0.push(endpoint_symbol(m, p, path));
        lemma_last_function_within(nodes);
    }
}

/// Every relationship and reference the Python extractor records points at
/// symbols it recorded.
pub proof fn lemma_python_extraction_linked(tree: SyntaxNode, text: Seq<char>, src: Seq<u8>, path: Seq<char>)
    ensures
        linked(python_extraction(tree, text, src, path)),
{
    let w = py_walk(tree, false, false, None, src, path, (seq![], seq![], seq![]));
    lemma_py_walk_linked(tree, false, false, None, src, path, (seq![], seq![], seq![]));
    lemma_first_function_within(w.0);
    lemma_env_records_linked(env_reads(text), first_function(w.0), w);
    let e = env_into(text, w);
    let routes = routes_of(text, path);
    lemma_endpoints_among_linked(routes, routes.len(), path, (e.0, e.1, seq![]), e.2);
}

} // verus!
