//! Rust: functions and methods (with generic bounds and the calls in their
//! bodies), structs, enums and their variants, traits, impls, type aliases,
//! constants, modules and `use` declarations, with the derives and `cfg`
//! conditions of their attributes.
use vstd::prelude::*;

use crate::indexer::extractor::{
    edge_views, node_views, opt_chars, opt_pairs, ref_views, EdgeView, ExtractedEdge, ExtractedFile, ExtractedNode, NodeView,
    RefView, UnresolvedRef,
};
use crate::indexer::languages::shared::{
    extraction_of, first_line, first_line_exec, make_ref, make_symbol, push_contains, push_node, push_ref, qualify,
    qualify_exec, reference, symbol, with_contains, Extraction, linked, parent_within, refs_within,
};
use crate::indexer::languages::typescript::{add_symbol, opt_index};
use crate::indexer::syntax::{
    find_child_by_kind, first_of_kind, lemma_rows_fit_child, node_text, opt_node, parse_syntax, rows_fit,
    rows_fit_exec, syntax_tree, text_of, SyntaxNode,
};
use crate::config::split_pieces;
use crate::text::{
    append_chars, chars_of, contains_chars, contains_sub, copy_chars, eq_chars, join, join_chars, pieces, same_text,
    string_of, trim, trim_chars, views,
};
use crate::types::{EdgeKind, Language, NodeKind};
use vstd::utf8::encode_utf8;

verus! {

// ---------------------------------------------------------------------------
// Text of attributes
// ---------------------------------------------------------------------------

/// The first index at or after `i` where `pat` occurs in `s`.
pub open spec fn find_from(s: Seq<char>, pat: Seq<char>, i: int) -> Option<int>
    decreases s.len() + 1 - i,
{
    if i < 0 || i + pat.len() > s.len() {
        None
    } else if s.subrange(i, i + pat.len()) == pat {
        Some(i)
    } else {
        find_from(s, pat, i + 1)
    }
}

/// The last index of `c` in `s`.
pub open spec fn find_last_char(s: Seq<char>, c: char) -> Option<int>
    decreases s.len(),
{
    if s.len() == 0 {
        None
    } else if s.last() == c {
        Some(s.len() - 1)
    } else {
        find_last_char(s.drop_last(), c)
    }
}

/// The trimmed pieces that are not blank.
pub open spec fn nonblank_trimmed(parts: Seq<Seq<char>>) -> Seq<Seq<char>>
    decreases parts.len(),
{
    if parts.len() == 0 {
        seq![]
    } else {
        let r = nonblank_trimmed(parts.drop_last());
        let t = trim(parts.last());
        if t.len() > 0 {
            r.push(t)
        } else {
            r
        }
    }
}

/// The traits an attribute derives: the comma-separated names between
/// `derive(` and the next `)`.
pub open spec fn derive_names(text: Seq<char>) -> Option<Seq<Seq<char>>> {
    match find_from(text, "derive("@, 0) {
        Some(a) => {
            let after = text.skip(a + 7);
            match find_from(after, ")"@, 0) {
                Some(e) => Some(nonblank_trimmed(pieces(after.take(e), ','))),
                None => None,
            }
        },
        None => None,
    }
}

/// The condition of a `cfg` attribute: the text between `cfg(` and the last
/// `)` after it.
pub open spec fn cfg_text(text: Seq<char>) -> Option<Seq<char>> {
    match find_from(text, "cfg("@, 0) {
        Some(a) => {
            let after = text.skip(a + 4);
            match find_last_char(after, ')') {
                Some(e) => Some(after.take(e)),
                None => None,
            }
        },
        None => None,
    }
}

/// What the attributes before an item say: its derives (joined by `, `),
/// its `cfg` condition, and the references recorded so far.
pub type Attrs = (Option<Seq<char>>, Option<Seq<char>>, Seq<RefView>);

/// One attribute applied: its derives replace earlier ones and each becomes
/// a type reference from the symbol at `idx`; its condition replaces an
/// earlier one.
pub open spec fn apply_attribute(text: Seq<char>, idx: int, a: Attrs) -> Attrs {
    let c = match cfg_text(text) {
        Some(x) => Some(x),
        None => a.1,
    };
    match derive_names(text) {
        Some(ns) => (
            Some(join(ns, ", "@)),
            c,
            a.2 + ns.map_values(|nm: Seq<char>| reference(idx, nm, EdgeKind::TypeRef, None, None)),
        ),
        None => (a.0, c, a.2),
    }
}

/// A comment node kind.
pub open spec fn is_comment_kind(k: Seq<char>) -> bool {
    k == "line_comment"@ || k == "block_comment"@
}

/// The attributes right before an item (its previous siblings are
/// `before`), nearest first, looking past comments.
pub open spec fn scan_attributes(before: Seq<SyntaxNode>, idx: int, src: Seq<u8>, a: Attrs) -> Attrs
    decreases before.len(),
{
    if before.len() == 0 {
        a
    } else {
        let p = before.last();
        if p.kind@ == "attribute_item"@ {
            scan_attributes(before.drop_last(), idx, src, apply_attribute(node_text(p, src), idx, a))
        } else if is_comment_kind(p.kind@) {
            scan_attributes(before.drop_last(), idx, src, a)
        } else {
            a
        }
    }
}

/// A key/value pair when there is a value.
pub open spec fn pair_if(key: Seq<char>, v: Option<Seq<char>>) -> Seq<(Seq<char>, Seq<char>)> {
    match v {
        Some(x) => seq![(key, x)],
        None => seq![],
    }
}

/// Metadata in key order (`cfg`, `derive`, `receiver`), `None` when empty.
pub open spec fn metadata_of(cfg: Option<Seq<char>>, derive: Option<Seq<char>>, receiver: Option<Seq<char>>) -> Option<
    Seq<(Seq<char>, Seq<char>)>,
> {
    let p = pair_if("cfg"@, cfg) + pair_if("derive"@, derive) + pair_if("receiver"@, receiver);
    if p.len() == 0 {
        None
    } else {
        Some(p)
    }
}

/// The texts of the comments right before an item, in source order.
pub open spec fn doc_run(before: Seq<SyntaxNode>, src: Seq<u8>) -> Seq<Seq<char>>
    decreases before.len(),
{
    if before.len() > 0 && is_comment_kind(before.last().kind@) {
        doc_run(before.drop_last(), src).push(node_text(before.last(), src))
    } else {
        seq![]
    }
}

/// The comments right before an item, joined by line breaks.
pub open spec fn doc_comments(before: Seq<SyntaxNode>, src: Seq<u8>) -> Option<Seq<char>> {
    let run = doc_run(before, src);
    if run.len() == 0 {
        None
    } else {
        Some(join(run, "\n"@))
    }
}

// ---------------------------------------------------------------------------
// Items
// ---------------------------------------------------------------------------

/// The text of an item's visibility modifier.
pub open spec fn visibility_of_item(n: SyntaxNode, src: Seq<u8>) -> Option<Seq<char>> {
    match first_of_kind(n.children@, "visibility_modifier"@) {
        Some(v) => Some(node_text(v, src)),
        None => None,
    }
}

/// Whether a node kind is one a return type is recognised by.
pub open spec fn is_return_kind(k: Seq<char>) -> bool {
    k == "type_identifier"@ || k == "generic_type"@ || k == "reference_type"@ || k == "scoped_type_identifier"@
}

/// The first child whose kind is a recognised return type.
pub open spec fn return_type_node(cs: Seq<SyntaxNode>) -> Option<SyntaxNode>
    decreases cs.len(),
{
    if cs.len() == 0 {
        None
    } else if is_return_kind(cs[0].kind@) {
        Some(cs[0])
    } else {
        return_type_node(cs.drop_first())
    }
}

/// Whether a parameter list starts with `self` (its second child is a self
/// parameter or reads `self`, `&self` or `&mut self`).
pub open spec fn has_self_param(params: SyntaxNode, src: Seq<u8>) -> bool {
    params.children@.len() > 1 && (params.children@[1].kind@ == "self_parameter"@ || {
        let t = node_text(params.children@[1], src);
        t == "self"@ || t == "&self"@ || t == "&mut self"@
    })
}

/// The receiver of a method: the first parameter's text when it mentions
/// `self`.
pub open spec fn receiver_of(params: SyntaxNode, src: Seq<u8>) -> Option<Seq<char>> {
    if params.children@.len() > 1 && contains_sub(node_text(params.children@[1], src), "self"@) {
        Some(node_text(params.children@[1], src))
    } else {
        None
    }
}

/// A function: a method when it is nested in another symbol, directly in an
/// impl or declaration list, and takes `self`; signature
/// `fn name(params) -> type`; exported when `pub`; metadata from its
/// attributes and, for a method, its receiver.
pub open spec fn function_symbol(
    n: SyntaxNode,
    parent: Option<int>,
    parent_kind: Option<Seq<char>>,
    before: Seq<SyntaxNode>,
    src: Seq<u8>,
    path: Seq<char>,
) -> Option<NodeView> {
    let cs = n.children@;
    match first_of_kind(cs, "identifier"@) {
        Some(nm) => {
            let name = node_text(nm, src);
            let vis = visibility_of_item(n, src);
            let params = match first_of_kind(cs, "parameters"@) {
                Some(p) => node_text(p, src),
                None => "()"@,
            };
            let ret = match return_type_node(cs) {
                Some(t) => " -> "@ + node_text(t, src),
                None => Seq::<char>::empty(),
            };
            let method = parent is Some && (parent_kind == Some("impl_item"@) || parent_kind == Some("declaration_list"@))
                && (first_of_kind(cs, "parameters"@) matches Some(p) && has_self_param(p, src));
            let receiver = if method {
                receiver_of(first_of_kind(cs, "parameters"@)->0, src)
            } else {
                None
            };
            let at = scan_attributes(before, 0, src, (None, None, seq![]));
            let kind = if method {
                NodeKind::Method
            } else {
                NodeKind::Function
            };
            Some(
                NodeView {
                    metadata: metadata_of(at.1, at.0, receiver),
                    ..symbol(
                        kind,
                        name,
                        Some(qualify(path, name)),
                        Some("fn "@ + name + params + ret),
                        doc_comments(before, src),
                        n,
                        vis,
                        vis == Some("pub"@),
                    )
                },
            )
        },
        None => None,
    }
}

/// The trimmed texts of the field declarations among the first `k` nodes.
pub open spec fn field_texts(cs: Seq<SyntaxNode>, k: nat, src: Seq<u8>) -> Seq<Seq<char>>
    decreases k,
{
    if k == 0 || k > cs.len() {
        seq![]
    } else {
        let r = field_texts(cs, (k - 1) as nat, src);
        if cs[k - 1].kind@ == "field_declaration"@ {
            r.push(trim(node_text(cs[k - 1], src)))
        } else {
            r
        }
    }
}

/// `struct Name { f1, ..., f5 <, ...> }`: up to five fields, when it has any.
pub open spec fn struct_signature(n: SyntaxNode, name: Seq<char>, src: Seq<u8>) -> Option<Seq<char>> {
    match first_of_kind(n.children@, "field_declaration_list"@) {
        Some(fl) => {
            let fields = field_texts(fl.children@, fl.children@.len(), src);
            if fields.len() == 0 {
                None
            } else {
                let shown = if fields.len() > 5 {
                    fields.take(5)
                } else {
                    fields
                };
                let suffix = if fields.len() > 5 {
                    ", ..."@
                } else {
                    Seq::<char>::empty()
                };
                Some("struct "@ + name + " { "@ + join(shown, ", "@) + " "@ + suffix + " }"@)
            }
        },
        None => None,
    }
}

/// A struct placed at index `idx`, and the references its derives add.
pub open spec fn struct_symbol(
    n: SyntaxNode,
    idx: int,
    before: Seq<SyntaxNode>,
    src: Seq<u8>,
    path: Seq<char>,
    refs: Seq<RefView>,
) -> Option<(NodeView, Seq<RefView>)> {
    match first_of_kind(n.children@, "type_identifier"@) {
        Some(nm) => {
            let name = node_text(nm, src);
            let vis = visibility_of_item(n, src);
            let at = scan_attributes(before, idx, src, (None, None, refs));
            Some(
                (
                    NodeView {
                        metadata: metadata_of(at.1, at.0, None),
                        ..symbol(
                            NodeKind::Struct,
                            name,
                            Some(qualify(path, name)),
                            struct_signature(n, name, src),
                            doc_comments(before, src),
                            n,
                            vis,
                            vis == Some("pub"@),
                        )
                    },
                    at.2,
                ),
            )
        },
        None => None,
    }
}

/// An enum, with metadata from its attributes.
pub open spec fn enum_symbol(n: SyntaxNode, before: Seq<SyntaxNode>, src: Seq<u8>, path: Seq<char>) -> Option<NodeView> {
    match first_of_kind(n.children@, "type_identifier"@) {
        Some(nm) => {
            let name = node_text(nm, src);
            let vis = visibility_of_item(n, src);
            let at = scan_attributes(before, 0, src, (None, None, seq![]));
            Some(
                NodeView {
                    metadata: metadata_of(at.1, at.0, None),
                    ..symbol(NodeKind::Enum, name, Some(qualify(path, name)), None, doc_comments(before, src), n, vis, vis == Some("pub"@))
                },
            )
        },
        None => None,
    }
}

/// The variants among the first `k` entries of an enum's variant list: each
/// a symbol `<file>::<Enum>::<Variant>` contained in the enum at
/// `enum_idx`, with its trimmed text as signature; its derives become type
/// references.
pub open spec fn variants_among(
    cs: Seq<SyntaxNode>,
    k: nat,
    enum_idx: int,
    enum_name: Seq<char>,
    src: Seq<u8>,
    path: Seq<char>,
    st: Extraction,
) -> Extraction
    decreases k,
{
    if k == 0 || k > cs.len() {
        st
    } else {
        let s = variants_among(cs, (k - 1) as nat, enum_idx, enum_name, src, path, st);
        let c = cs[k - 1];
        if c.kind@ == "enum_variant"@ && first_of_kind(c.children@, "identifier"@) is Some {
            let vname = node_text(first_of_kind(c.children@, "identifier"@)->0, src);
            let idx = s.0.len() as int;
            let before = cs.take(k - 1);
            let v = symbol(
                NodeKind::EnumVariant,
                vname,
                Some(path + "::"@ + enum_name + "::"@ + vname),
                Some(trim(node_text(c, src))),
                doc_comments(before, src),
                c,
                None,
                false,
            );
            (s.0.push(v), with_contains(s.1, Some(enum_idx), idx), scan_attributes(before, idx, src, (None, None, s.2)).2)
        } else {
            s
        }
    }
}

/// The variants of an enum.
pub open spec fn variants_into(n: SyntaxNode, enum_idx: int, enum_name: Seq<char>, src: Seq<u8>, path: Seq<char>, st: Extraction) -> Extraction {
    match first_of_kind(n.children@, "enum_variant_list"@) {
        Some(vl) => variants_among(vl.children@, vl.children@.len(), enum_idx, enum_name, src, path, st),
        None => st,
    }
}

/// A trait.
pub open spec fn trait_symbol(n: SyntaxNode, before: Seq<SyntaxNode>, src: Seq<u8>, path: Seq<char>) -> Option<NodeView> {
    match first_of_kind(n.children@, "type_identifier"@) {
        Some(nm) => {
            let name = node_text(nm, src);
            let vis = visibility_of_item(n, src);
            Some(symbol(NodeKind::Trait, name, Some(qualify(path, name)), None, doc_comments(before, src), n, vis, vis == Some("pub"@)))
        },
        None => None,
    }
}

/// The type an impl is for (its first type identifier or generic type).
pub open spec fn impl_type(n: SyntaxNode) -> Option<SyntaxNode> {
    match first_of_kind(n.children@, "type_identifier"@) {
        Some(t) => Some(t),
        None => first_of_kind(n.children@, "generic_type"@),
    }
}

/// An impl block: `impl Type`, qualified `<file>::impl_Type`.
pub open spec fn impl_symbol(n: SyntaxNode, src: Seq<u8>, path: Seq<char>) -> Option<NodeView> {
    match impl_type(n) {
        Some(t) => {
            let name = node_text(t, src);
            Some(symbol(NodeKind::Impl, "impl "@ + name, Some(path + "::impl_"@ + name), None, None, n, None, false))
        },
        None => None,
    }
}

/// Whether a node kind names a type an impl can implement.
pub open spec fn is_trait_type_kind(k: Seq<char>) -> bool {
    k == "type_identifier"@ || k == "scoped_type_identifier"@ || k == "generic_type"@
}

/// Scans an impl's children from index `i`: after the `impl` keyword, the
/// first type is the trait's; the scan stops at `for`. The result: whether
/// `for` was reached, and the trait's name.
pub open spec fn impl_scan(cs: Seq<SyntaxNode>, i: int, seen_impl: bool, name: Option<Seq<char>>, src: Seq<u8>) -> (bool, Option<Seq<char>>)
    decreases cs.len() - i,
{
    if i < 0 || i >= cs.len() {
        (false, name)
    } else {
        let k = cs[i].kind@;
        if k == "impl"@ {
            impl_scan(cs, i + 1, true, name, src)
        } else if k == "for"@ {
            (true, name)
        } else if is_trait_type_kind(k) && seen_impl {
            impl_scan(
                cs,
                i + 1,
                seen_impl,
                if name is None {
                    Some(node_text(cs[i], src))
                } else {
                    name
                },
                src,
            )
        } else {
            impl_scan(cs, i + 1, seen_impl, name, src)
        }
    }
}

/// The trait an impl implements, as a reference from the impl at `idx`.
pub open spec fn impl_trait_ref(cs: Seq<SyntaxNode>, idx: int, src: Seq<u8>, refs: Seq<RefView>) -> Seq<RefView> {
    let (has_for, name) = impl_scan(cs, 0, false, None, src);
    if has_for && name is Some {
        refs.push(reference(idx, name->0, EdgeKind::Implements, None, None))
    } else {
        refs
    }
}

/// A type alias (signature: its first line).
pub open spec fn type_symbol(n: SyntaxNode, before: Seq<SyntaxNode>, src: Seq<u8>, path: Seq<char>) -> Option<NodeView> {
    match first_of_kind(n.children@, "type_identifier"@) {
        Some(nm) => {
            let name = node_text(nm, src);
            Some(
                symbol(
                    NodeKind::TypeAlias,
                    name,
                    Some(qualify(path, name)),
                    Some(first_line(node_text(n, src))),
                    doc_comments(before, src),
                    n,
                    visibility_of_item(n, src),
                    false,
                ),
            )
        },
        None => None,
    }
}

/// A constant or static (signature: its first line).
pub open spec fn const_symbol(n: SyntaxNode, before: Seq<SyntaxNode>, src: Seq<u8>, path: Seq<char>) -> Option<NodeView> {
    match first_of_kind(n.children@, "identifier"@) {
        Some(nm) => {
            let name = node_text(nm, src);
            Some(
                symbol(
                    NodeKind::Constant,
                    name,
                    Some(qualify(path, name)),
                    Some(first_line(node_text(n, src))),
                    doc_comments(before, src),
                    n,
                    visibility_of_item(n, src),
                    false,
                ),
            )
        },
        None => None,
    }
}

/// A module.
pub open spec fn module_symbol(n: SyntaxNode, before: Seq<SyntaxNode>, src: Seq<u8>, path: Seq<char>) -> Option<NodeView> {
    match first_of_kind(n.children@, "identifier"@) {
        Some(nm) => {
            let name = node_text(nm, src);
            Some(
                symbol(
                    NodeKind::Module,
                    name,
                    Some(qualify(path, name)),
                    None,
                    doc_comments(before, src),
                    n,
                    visibility_of_item(n, src),
                    false,
                ),
            )
        },
        None => None,
    }
}

// ---------------------------------------------------------------------------
// References
// ---------------------------------------------------------------------------

/// The type a trait bound names (type identifier, scoped type identifier
/// or generic type, in that preference).
pub open spec fn bound_type(b: SyntaxNode) -> Option<SyntaxNode> {
    match first_of_kind(b.children@, "type_identifier"@) {
        Some(t) => Some(t),
        None => match first_of_kind(b.children@, "scoped_type_identifier"@) {
            Some(t) => Some(t),
            None => first_of_kind(b.children@, "generic_type"@),
        },
    }
}

/// The trait bounds among the first `k` nodes, each a type reference.
pub open spec fn bounds_among(gs: Seq<SyntaxNode>, k: nat, idx: int, src: Seq<u8>, refs: Seq<RefView>) -> Seq<RefView>
    decreases k,
{
    if k == 0 || k > gs.len() {
        refs
    } else {
        let r = bounds_among(gs, (k - 1) as nat, idx, src, refs);
        let g = gs[k - 1];
        if g.kind@ == "trait_bound"@ && bound_type(g) is Some {
            r.push(reference(idx, node_text(bound_type(g)->0, src), EdgeKind::TypeRef, None, None))
        } else {
            r
        }
    }
}

/// The bounds in the entries of a clause whose entries have kind `entry`.
pub open spec fn clause_bounds(cs: Seq<SyntaxNode>, k: nat, entry: Seq<char>, idx: int, src: Seq<u8>, refs: Seq<RefView>) -> Seq<RefView>
    decreases k,
{
    if k == 0 || k > cs.len() {
        refs
    } else {
        let r = clause_bounds(cs, (k - 1) as nat, entry, idx, src, refs);
        let c = cs[k - 1];
        if c.kind@ == entry {
            bounds_among(c.children@, c.children@.len(), idx, src, r)
        } else {
            r
        }
    }
}

/// The trait bounds of an item's type parameters, then of its where clause.
pub open spec fn generic_bounds(n: SyntaxNode, idx: int, src: Seq<u8>, refs: Seq<RefView>) -> Seq<RefView> {
    let cs = n.children@;
    let r = match first_of_kind(cs, "type_parameters"@) {
        Some(t) => clause_bounds(t.children@, t.children@.len(), "constrained_type_parameter"@, idx, src, refs),
        None => refs,
    };
    match first_of_kind(cs, "where_clause"@) {
        Some(w) => clause_bounds(w.children@, w.children@.len(), "where_predicate"@, idx, src, r),
        None => r,
    }
}

/// The label a call inherits from an enclosing node of this kind.
pub open spec fn call_label(k: Seq<char>) -> Option<Seq<char>> {
    if k == "if_expression"@ || k == "match_expression"@ {
        Some("conditional"@)
    } else if k == "for_expression"@ || k == "while_expression"@ || k == "loop_expression"@ {
        Some("loop"@)
    } else if k == "try_expression"@ {
        Some("error_propagation"@)
    } else {
        None
    }
}

/// The calls inside `n`, not looking into closures: each refers from the
/// symbol at `idx` to its callee's text, with the label of the nearest
/// enclosing branch, loop or `?` (`context`, for `n`'s own ancestors inside
/// the function).
pub open spec fn rust_calls_in(n: SyntaxNode, idx: int, context: Option<Seq<char>>, src: Seq<u8>, refs: Seq<RefView>) -> Seq<RefView>
    decreases n, 0nat,
{
    let r = if n.kind@ == "call_expression"@ && n.children@.len() > 0 {
        refs.push(reference(idx, node_text(n.children@[0], src), EdgeKind::Calls, None, context))
    } else {
        refs
    };
    let inner = match call_label(n.kind@) {
        Some(l) => Some(l),
        None => context,
    };
    rust_calls_among(n.children@, n.children@.len(), idx, inner, src, r)
}

/// [`rust_calls_in`] over the first `k` nodes of `cs`.
pub open spec fn rust_calls_among(
    cs: Seq<SyntaxNode>,
    k: nat,
    idx: int,
    context: Option<Seq<char>>,
    src: Seq<u8>,
    refs: Seq<RefView>,
) -> Seq<RefView>
    decreases cs, k,
{
    if k == 0 || k > cs.len() {
        refs
    } else {
        let r = rust_calls_among(cs, (k - 1) as nat, idx, context, src, refs);
        let c = cs[k - 1];
        if c.kind@ == "closure_expression"@ {
            r
        } else {
            rust_calls_in(c, idx, context, src, r)
        }
    }
}

/// Every identifier inside a `use` tree, each an import of the symbol at
/// `idx`.
pub open spec fn use_names(n: SyntaxNode, idx: int, src: Seq<u8>, refs: Seq<RefView>) -> Seq<RefView>
    decreases n, 0nat,
{
    if n.kind@ == "identifier"@ {
        refs.push(reference(idx, node_text(n, src), EdgeKind::Imports, None, None))
    } else {
        use_names_among(n.children@, n.children@.len(), idx, src, refs)
    }
}

/// [`use_names`] over the first `k` nodes of `cs`.
pub open spec fn use_names_among(cs: Seq<SyntaxNode>, k: nat, idx: int, src: Seq<u8>, refs: Seq<RefView>) -> Seq<RefView>
    decreases cs, k,
{
    if k == 0 || k > cs.len() {
        refs
    } else {
        use_names(cs[k - 1], idx, src, use_names_among(cs, (k - 1) as nat, idx, src, refs))
    }
}

/// [`use_names`] over the first `k` children of a `use` declaration, past
/// its keyword and visibility.
pub open spec fn use_parts_among(cs: Seq<SyntaxNode>, k: nat, idx: int, src: Seq<u8>, refs: Seq<RefView>) -> Seq<RefView>
    decreases k,
{
    if k == 0 || k > cs.len() {
        refs
    } else {
        let r = use_parts_among(cs, (k - 1) as nat, idx, src, refs);
        let c = cs[k - 1];
        if c.kind@ == "use"@ || c.kind@ == "visibility_modifier"@ {
            r
        } else {
            use_names(c, idx, src, r)
        }
    }
}

/// A `use` declaration: a symbol named after its text and an import for
/// each identifier in it.
pub open spec fn use_into(n: SyntaxNode, src: Seq<u8>, st: Extraction) -> Extraction {
    let idx = st.0.len() as int;
    (
        st.0.push(symbol(NodeKind::Import, node_text(n, src), None, None, None, n, None, false)),
        st.1,
        use_parts_among(n.children@, n.children@.len(), idx, src, st.2),
    )
}

// ---------------------------------------------------------------------------
// The walk
// ---------------------------------------------------------------------------

/// Walks a subtree in pre-order. `parent_kind`: the kind of the tree parent
/// (none at the root); `before`: the node's previous siblings; `parent`: the
/// index of the enclosing symbol. Functions, traits, impls and modules
/// enclose what is inside them.
pub open spec fn rust_walk(
    n: SyntaxNode,
    parent_kind: Option<Seq<char>>,
    before: Seq<SyntaxNode>,
    parent: Option<int>,
    src: Seq<u8>,
    path: Seq<char>,
    st: Extraction,
) -> Extraction
    decreases n, 0nat,
{
    let k = n.kind@;
    let cs = n.children@;
    let idx = st.0.len() as int;
    if k == "function_item"@ && function_symbol(n, parent, parent_kind, before, src, path) is Some {
        let s1 = add_symbol(st, function_symbol(n, parent, parent_kind, before, src, path)->0, parent);
        let r = rust_calls_in(n, idx, None, src, generic_bounds(n, idx, src, s1.2));
        rust_walk_among(cs, cs.len(), k, Some(idx), src, path, (s1.0, s1.1, r))
    } else if k == "trait_item"@ && trait_symbol(n, before, src, path) is Some {
        let s1 = add_symbol(st, trait_symbol(n, before, src, path)->0, parent);
        rust_walk_among(cs, cs.len(), k, Some(idx), src, path, (s1.0, s1.1, generic_bounds(n, idx, src, s1.2)))
    } else if k == "impl_item"@ && impl_symbol(n, src, path) is Some {
        let s1 = add_symbol(st, impl_symbol(n, src, path)->0, parent);
        let r = generic_bounds(n, idx, src, impl_trait_ref(cs, idx, src, s1.2));
        rust_walk_among(cs, cs.len(), k, Some(idx), src, path, (s1.0, s1.1, r))
    } else if k == "mod_item"@ && module_symbol(n, before, src, path) is Some {
        let s1 = add_symbol(st, module_symbol(n, before, src, path)->0, parent);
        rust_walk_among(cs, cs.len(), k, Some(idx), src, path, s1)
    } else {
        rust_walk_among(cs, cs.len(), k, parent, src, path, other_item(n, before, parent, src, path, st))
    }
}

/// [`rust_walk`] over the first `k` children in `cs` of a node of kind
/// `kind`.
pub open spec fn rust_walk_among(
    cs: Seq<SyntaxNode>,
    k: nat,
    kind: Seq<char>,
    parent: Option<int>,
    src: Seq<u8>,
    path: Seq<char>,
    st: Extraction,
) -> Extraction
    decreases cs, k,
{
    if k == 0 || k > cs.len() {
        st
    } else {
        rust_walk(cs[k - 1], Some(kind), cs.take(k - 1), parent, src, path, rust_walk_among(cs, (k - 1) as nat, kind, parent, src, path, st))
    }
}

// ---------------------------------------------------------------------------
// Executable text steps
// ---------------------------------------------------------------------------

/// Whether `pat` occurs in `s` at index `i`.
fn occurs_at(s: &Vec<char>, pat: &Vec<char>, i: usize) -> (r: bool)
    requires
        i + pat@.len() <= s@.len(),
    ensures
        r == (s@.subrange(i as int, i + pat@.len()) == pat@),
{
    let slen = s.len();
    let mut j: usize = 0;
    while j < pat.len()
        invariant
            j <= pat@.len(),
            i + pat@.len() <= s@.len(),
            slen == s@.len(),
            forall|k: int| 0 <= k < j ==> s@[i + k] == pat@[k],
        decreases pat.len() - j,
    {
        if s[i + j] != pat[j] {
            assert(s@.subrange(i as int, i + pat@.len())[j as int] != pat@[j as int]);
            return false;
        }
        j += 1;
    }
    assert(s@.subrange(i as int, i + pat@.len()) =~= pat@);
    true
}

/// The first index of `pat` in `s`, as [`find_from`] says.
fn find_exec(s: &Vec<char>, pat: &Vec<char>) -> (r: Option<usize>)
    ensures
        opt_index(r) == find_from(s@, pat@, 0),
        r matches Some(a) ==> a + pat@.len() <= s@.len(),
{
    if pat.len() > s.len() {
        return None;
    }
    let last = s.len() - pat.len();
    let mut i: usize = 0;
    while i <= last
        invariant
            last + pat@.len() == s@.len(),
            i <= last + 1,
            find_from(s@, pat@, 0) == find_from(s@, pat@, i as int),
        decreases last + 1 - i,
    {
        if occurs_at(s, pat, i) {
            return Some(i);
        }
        if i == last {
            assert(find_from(s@, pat@, i + 1) is None);
            return None;
        }
        i += 1;
    }
    None
}

/// The last index of `c` in `s`, as [`find_last_char`] says.
fn find_last_exec(s: &Vec<char>, c: char) -> (r: Option<usize>)
    ensures
        opt_index(r) == find_last_char(s@, c),
        r matches Some(e) ==> e < s@.len(),
{
    let mut i: usize = s.len();
    assert(s@.take(i as int) =~= s@);
    while i > 0
        invariant
            i <= s@.len(),
            find_last_char(s@, c) == find_last_char(s@.take(i as int), c),
        decreases i,
    {
        assert(s@.take(i as int).last() == s@[i - 1]);
        if s[i - 1] == c {
            return Some(i - 1);
        }
        assert(s@.take(i as int).drop_last() =~= s@.take(i - 1));
        i -= 1;
    }
    None
}

/// The characters of `s` from index `from` on.
fn suffix_from(s: &Vec<char>, from: usize) -> (r: Vec<char>)
    requires
        from <= s@.len(),
    ensures
        r@ == s@.skip(from as int),
{
    let mut r: Vec<char> = Vec::new();
    let mut i: usize = from;
    while i < s.len()
        invariant
            from <= i <= s@.len(),
            r@ == s@.subrange(from as int, i as int),
        decreases s.len() - i,
    {
        r.push(s[i]);
        assert(s@.subrange(from as int, i + 1) =~= s@.subrange(from as int, i as int).push(s@[i as int]));
        i += 1;
    }
    r
}

/// The first `n` characters of `s`.
fn prefix_of(s: &Vec<char>, n: usize) -> (r: Vec<char>)
    requires
        n <= s@.len(),
    ensures
        r@ == s@.take(n as int),
{
    let mut r: Vec<char> = Vec::new();
    let mut i: usize = 0;
    while i < n
        invariant
            i <= n <= s@.len(),
            r@ == s@.take(i as int),
        decreases n - i,
    {
        r.push(s[i]);
        assert(s@.take(i + 1) =~= s@.take(i as int).push(s@[i as int]));
        i += 1;
    }
    r
}

/// The trimmed pieces that are not blank, as [`nonblank_trimmed`] says.
fn nonblank_trimmed_exec(parts: &Vec<Vec<char>>) -> (r: Vec<Vec<char>>)
    ensures
        views(r@) == nonblank_trimmed(views(parts@)),
{
    let ghost pv = views(parts@);
    let mut r: Vec<Vec<char>> = Vec::new();
    let mut i: usize = 0;
    assert(pv.take(0) =~= Seq::<Seq<char>>::empty());
    while i < parts.len()
        invariant
            i <= parts@.len(),
            pv == views(parts@),
            views(r@) == nonblank_trimmed(pv.take(i as int)),
        decreases parts.len() - i,
    {
        assert(pv.take(i + 1).drop_last() =~= pv.take(i as int));
        assert(pv.take(i + 1).last() == parts@[i as int]@);
        let t = trim_chars(&parts[i]);
        if t.len() > 0 {
            let ghost before = views(r@);
            r.push(t);
            assert(views(r@) =~= before.push(t@));
        }
        i += 1;
    }
    assert(pv.take(parts@.len() as int) =~= pv);
    r
}

/// The traits an attribute derives, as [`derive_names`] says.
fn derive_names_exec(text: &Vec<char>) -> (r: Option<Vec<Vec<char>>>)
    ensures
        match r {
            Some(v) => derive_names(text@) == Some(views(v@)),
            None => derive_names(text@) is None,
        },
{
    proof {
        reveal_strlit("derive(");
    }
    let a = match find_exec(text, &chars_of("derive(")) {
        Some(a) => a,
        None => return None,
    };
    let tlen = text.len();
    assert(a + 7 <= tlen);
    let after = suffix_from(text, a + 7);
    let e = match find_exec(&after, &chars_of(")")) {
        Some(e) => e,
        None => return None,
    };
    Some(nonblank_trimmed_exec(&split_pieces(&prefix_of(&after, e), ',')))
}

/// The condition of a `cfg` attribute, as [`cfg_text`] says.
fn cfg_text_exec(text: &Vec<char>) -> (r: Option<Vec<char>>)
    ensures
        match r {
            Some(v) => cfg_text(text@) == Some(v@),
            None => cfg_text(text@) is None,
        },
{
    proof {
        reveal_strlit("cfg(");
    }
    let a = match find_exec(text, &chars_of("cfg(")) {
        Some(a) => a,
        None => return None,
    };
    let tlen = text.len();
    assert(a + 4 <= tlen);
    let after = suffix_from(text, a + 4);
    match find_last_exec(&after, ')') {
        Some(e) => Some(prefix_of(&after, e)),
        None => None,
    }
}

/// One attribute applied, as [`apply_attribute`] says.
fn apply_attribute_exec(
    text: &Vec<char>,
    idx: usize,
    derive: &mut Option<String>,
    cfg: &mut Option<String>,
    refs: &mut Vec<UnresolvedRef>,
)
    ensures
        (opt_chars(*final(derive)), opt_chars(*final(cfg)), ref_views(final(refs)@)) == apply_attribute(
            text@,
            idx as int,
            (opt_chars(*old(derive)), opt_chars(*old(cfg)), ref_views(old(refs)@)),
        ),
{
    if let Some(c) = cfg_text_exec(text) {
        *cfg = Some(string_of(&c));
    }
    if let Some(ns) = derive_names_exec(text) {
        *derive = Some(string_of(&join_chars(&ns, &chars_of(", "))));
        let ghost nv = views(ns@);
        let ghost r0 = ref_views(refs@);
        let mut j: usize = 0;
        while j < ns.len()
            invariant
                j <= ns@.len(),
                nv == views(ns@),
                ref_views(refs@) == r0 + nv.take(j as int).map_values(
                    |nm: Seq<char>| reference(idx as int, nm, EdgeKind::TypeRef, None, None),
                ),
            decreases ns.len() - j,
        {
            push_ref(refs, make_ref(idx, string_of(&ns[j]), EdgeKind::TypeRef, None, None));
            assert(nv.take(j + 1) =~= nv.take(j as int).push(nv[j as int]));
            assert(ref_views(refs@) =~= r0 + nv.take(j + 1).map_values(
                |nm: Seq<char>| reference(idx as int, nm, EdgeKind::TypeRef, None, None),
            ));
            j += 1;
        }
        assert(nv.take(ns@.len() as int) =~= nv);
    }
}

/// Whether a node kind is a comment's.
fn is_comment_kind_exec(k: &str) -> (r: bool)
    ensures
        r == is_comment_kind(k@),
{
    same_text(k, "line_comment") || same_text(k, "block_comment")
}

/// The attributes right before the sibling at `pos`, as [`scan_attributes`]
/// says.
fn scan_attributes_exec(
    siblings: &Vec<SyntaxNode>,
    pos: usize,
    idx: usize,
    source: &str,
    derive: &mut Option<String>,
    cfg: &mut Option<String>,
    refs: &mut Vec<UnresolvedRef>,
)
    requires
        pos <= siblings@.len(),
    ensures
        (opt_chars(*final(derive)), opt_chars(*final(cfg)), ref_views(final(refs)@)) == scan_attributes(
            siblings@.take(pos as int),
            idx as int,
            encode_utf8(source@),
            (opt_chars(*old(derive)), opt_chars(*old(cfg)), ref_views(old(refs)@)),
        ),
{
    let ghost src = encode_utf8(source@);
    let ghost goal = scan_attributes(
        siblings@.take(pos as int),
        idx as int,
        src,
        (opt_chars(*derive), opt_chars(*cfg), ref_views(refs@)),
    );
    let mut j: usize = pos;
    let mut open = true;
    while j > 0 && open
        invariant
            j <= pos <= siblings@.len(),
            src == encode_utf8(source@),
            open ==> goal == scan_attributes(
                siblings@.take(j as int),
                idx as int,
                src,
                (opt_chars(*derive), opt_chars(*cfg), ref_views(refs@)),
            ),
            !open ==> goal == (opt_chars(*derive), opt_chars(*cfg), ref_views(refs@)),
        decreases j + if open { 1int } else { 0int },
    {
        let p = &siblings[j - 1];
        assert(siblings@.take(j as int).last() == siblings@[j - 1]);
        assert(siblings@.take(j as int).drop_last() =~= siblings@.take(j - 1));
        if same_text(p.kind.as_str(), "attribute_item") {
            let text = chars_of(text_of(p, source).as_str());
            apply_attribute_exec(&text, idx, derive, cfg, refs);
            j -= 1;
        } else if is_comment_kind_exec(p.kind.as_str()) {
            j -= 1;
        } else {
            open = false;
        }
    }
}

proof fn lemma_doc_run(s: Seq<SyntaxNode>, j: int, pos: int, src: Seq<u8>)
    requires
        0 <= j <= pos <= s.len(),
        forall|t: int| j <= t < pos ==> is_comment_kind((#[trigger] s[t]).kind@),
        j == 0 || !is_comment_kind(s[j - 1].kind@),
    ensures
        doc_run(s.take(pos), src) == Seq::new((pos - j) as nat, |t: int| node_text(s[j + t], src)),
    decreases pos - j,
{
    if pos == j {
        assert(Seq::new((pos - j) as nat, |t: int| node_text(s[j + t], src)) =~= Seq::<Seq<char>>::empty());
        if pos > 0 {
            assert(s.take(pos).last() == s[pos - 1]);
        }
    } else {
        lemma_doc_run(s, j, pos - 1, src);
        assert(s.take(pos).drop_last() =~= s.take(pos - 1));
        assert(s.take(pos).last() == s[pos - 1]);
        assert(Seq::new((pos - j) as nat, |t: int| node_text(s[j + t], src)) =~= Seq::new(
            (pos - 1 - j) as nat,
            |t: int| node_text(s[j + t], src),
        ).push(node_text(s[pos - 1], src)));
    }
}

/// The comments right before the sibling at `pos`, as [`doc_comments`] says.
fn doc_comments_exec(siblings: &Vec<SyntaxNode>, pos: usize, source: &str) -> (r: Option<String>)
    requires
        pos <= siblings@.len(),
    ensures
        opt_chars(r) == doc_comments(siblings@.take(pos as int), encode_utf8(source@)),
{
    let ghost src = encode_utf8(source@);
    let mut j: usize = pos;
    while j > 0 && is_comment_kind_exec(siblings[j - 1].kind.as_str())
        invariant
            j <= pos <= siblings@.len(),
            forall|t: int| j <= t < pos ==> is_comment_kind((#[trigger] siblings@[t]).kind@),
        decreases j,
    {
        j -= 1;
    }
    proof {
        lemma_doc_run(siblings@, j as int, pos as int, src);
    }
    if j == pos {
        return None;
    }
    let mut texts: Vec<Vec<char>> = Vec::new();
    let mut t: usize = j;
    while t < pos
        invariant
            j <= t <= pos <= siblings@.len(),
            src == encode_utf8(source@),
            views(texts@) == Seq::new((t - j) as nat, |u: int| node_text(siblings@[j + u], src)),
        decreases pos - t,
    {
        let ghost before = views(texts@);
        texts.push(chars_of(text_of(&siblings[t], source).as_str()));
        assert(views(texts@) =~= before.push(node_text(siblings@[t as int], src)));
        assert(views(texts@) =~= Seq::new((t + 1 - j) as nat, |u: int| node_text(siblings@[j + u], src)));
        t += 1;
    }
    Some(string_of(&join_chars(&texts, &chars_of("\n"))))
}

/// Metadata in key order, as [`metadata_of`] says.
fn metadata_exec(cfg: Option<String>, derive: Option<String>, receiver: Option<String>) -> (r: Option<Vec<(String, String)>>)
    ensures
        opt_pairs(r) == metadata_of(opt_chars(cfg), opt_chars(derive), opt_chars(receiver)),
{
    let ghost c = opt_chars(cfg);
    let ghost d = opt_chars(derive);
    let ghost v = opt_chars(receiver);
    let mut m: Vec<(String, String)> = Vec::new();
    if let Some(x) = cfg {
        m.push(("cfg".to_string(), x));
    }
    assert(m@.map_values(|p: (String, String)| (p.0@, p.1@)) =~= pair_if("cfg"@, c));
    let ghost m1 = m@.map_values(|p: (String, String)| (p.0@, p.1@));
    if let Some(x) = derive {
        m.push(("derive".to_string(), x));
    }
    assert(m@.map_values(|p: (String, String)| (p.0@, p.1@)) =~= m1 + pair_if("derive"@, d));
    let ghost m2 = m@.map_values(|p: (String, String)| (p.0@, p.1@));
    if let Some(x) = receiver {
        m.push(("receiver".to_string(), x));
    }
    assert(m@.map_values(|p: (String, String)| (p.0@, p.1@)) =~= m2 + pair_if("receiver"@, v));
    if m.len() == 0 {
        None
    } else {
        Some(m)
    }
}

/// An optional string slice as plain characters.
pub open spec fn opt_str(o: Option<&str>) -> Option<Seq<char>> {
    match o {
        Some(s) => Some(s@),
        None => None,
    }
}

/// The text of an item's visibility modifier.
fn visibility_exec(n: &SyntaxNode, source: &str) -> (r: Option<String>)
    ensures
        opt_chars(r) == visibility_of_item(*n, encode_utf8(source@)),
{
    match find_child_by_kind(n, "visibility_modifier") {
        Some(v) => Some(text_of(v, source)),
        None => None,
    }
}

/// Whether an optional visibility reads `pub`.
fn is_pub(v: &Option<String>) -> (r: bool)
    ensures
        r == (opt_chars(*v) == Some("pub"@)),
{
    match v {
        Some(x) => same_text(x.as_str(), "pub"),
        None => false,
    }
}

/// The first child whose kind is a recognised return type.
fn return_type_exec(n: &SyntaxNode) -> (r: Option<&SyntaxNode>)
    ensures
        opt_node(r) == return_type_node(n.children@),
{
    let mut i: usize = 0;
    assert(n.children@.skip(0) =~= n.children@);
    while i < n.children.len()
        invariant
            i <= n.children@.len(),
            return_type_node(n.children@) == return_type_node(n.children@.skip(i as int)),
        decreases n.children.len() - i,
    {
        let c = &n.children[i];
        assert(n.children@.skip(i as int)[0] == n.children@[i as int]);
        assert(n.children@.skip(i as int).drop_first() =~= n.children@.skip(i as int + 1));
        let k = c.kind.as_str();
        if same_text(k, "type_identifier") || same_text(k, "generic_type") || same_text(k, "reference_type")
            || same_text(k, "scoped_type_identifier") {
            return Some(c);
        }
        i += 1;
    }
    None
}

/// Whether a parameter list starts with `self`.
fn has_self_param_exec(params: &SyntaxNode, source: &str) -> (r: bool)
    ensures
        r == has_self_param(*params, encode_utf8(source@)),
{
    if params.children.len() <= 1 {
        return false;
    }
    let first = &params.children[1];
    if same_text(first.kind.as_str(), "self_parameter") {
        return true;
    }
    let t = text_of(first, source);
    same_text(t.as_str(), "self") || same_text(t.as_str(), "&self") || same_text(t.as_str(), "&mut self")
}

/// The receiver of a method.
fn receiver_exec(params: &SyntaxNode, source: &str) -> (r: Option<String>)
    ensures
        opt_chars(r) == receiver_of(*params, encode_utf8(source@)),
{
    if params.children.len() <= 1 {
        return None;
    }
    let t = text_of(&params.children[1], source);
    if contains_chars(&chars_of(t.as_str()), &chars_of("self")) {
        Some(t)
    } else {
        None
    }
}

/// A function, as [`function_symbol`] says.
fn function_symbol_exec(
    n: &SyntaxNode,
    parent: Option<usize>,
    parent_kind: Option<&str>,
    siblings: &Vec<SyntaxNode>,
    pos: usize,
    source: &str,
    path: &str,
) -> (r: Option<ExtractedNode>)
    requires
        n.start_row < usize::MAX,
        n.end_row < usize::MAX,
        pos <= siblings@.len(),
    ensures
        match r {
            Some(e) => function_symbol(*n, opt_index(parent), opt_str(parent_kind), siblings@.take(pos as int), encode_utf8(source@), path@)
                == Some(e@),
            None => function_symbol(*n, opt_index(parent), opt_str(parent_kind), siblings@.take(pos as int), encode_utf8(source@), path@)
                is None,
        },
{
    let nm = match find_child_by_kind(n, "identifier") {
        Some(x) => x,
        None => return None,
    };
    let name = text_of(nm, source);
    let vis = visibility_exec(n, source);
    let export = is_pub(&vis);
    let params = find_child_by_kind(n, "parameters");
    let mut sig = chars_of("fn ");
    append_chars(&mut sig, &chars_of(name.as_str()));
    match params {
        Some(p) => append_chars(&mut sig, &chars_of(text_of(p, source).as_str())),
        None => append_chars(&mut sig, &chars_of("()")),
    }
    let ghost head = sig@;
    match return_type_exec(n) {
        Some(t) => {
            append_chars(&mut sig, &chars_of(" -> "));
            append_chars(&mut sig, &chars_of(text_of(t, source).as_str()));
            assert(sig@ =~= head + (" -> "@ + node_text(*t, encode_utf8(source@))));
        },
        None => {
            assert(sig@ =~= head + Seq::<char>::empty());
        },
    }
    let in_impl = match parent_kind {
        Some(k) => same_text(k, "impl_item") || same_text(k, "declaration_list"),
        None => false,
    };
    let method = parent.is_some() && in_impl && match params {
        Some(p) => has_self_param_exec(p, source),
        None => false,
    };
    let receiver = if method {
        match params {
            Some(p) => receiver_exec(p, source),
            None => None,
        }
    } else {
        None
    };
    let mut derive: Option<String> = None;
    let mut cfg: Option<String> = None;
    let mut discarded: Vec<UnresolvedRef> = Vec::new();
    proof {
        assert(ref_views(discarded@) =~= Seq::<RefView>::empty());
    }
    scan_attributes_exec(siblings, pos, 0, source, &mut derive, &mut cfg, &mut discarded);
    let kind = if method {
        NodeKind::Method
    } else {
        NodeKind::Function
    };
    let q = qualify_exec(path, name.as_str());
    let doc = doc_comments_exec(siblings, pos, source);
    let mut e = make_symbol(kind, name, Some(q), Some(string_of(&sig)), doc, n, vis, export);
    e.metadata = metadata_exec(cfg, derive, receiver);
    Some(e)
}

/// The trimmed field declarations of a field list, as [`field_texts`] says.
fn field_texts_exec(fl: &SyntaxNode, source: &str) -> (r: Vec<Vec<char>>)
    ensures
        views(r@) == field_texts(fl.children@, fl.children@.len(), encode_utf8(source@)),
{
    let ghost src = encode_utf8(source@);
    let mut r: Vec<Vec<char>> = Vec::new();
    let mut i: usize = 0;
    while i < fl.children.len()
        invariant
            i <= fl.children@.len(),
            src == encode_utf8(source@),
            views(r@) == field_texts(fl.children@, i as nat, src),
        decreases fl.children.len() - i,
    {
        let c = &fl.children[i];
        if same_text(c.kind.as_str(), "field_declaration") {
            let ghost before = views(r@);
            r.push(trim_chars(&chars_of(text_of(c, source).as_str())));
            assert(views(r@) =~= before.push(trim(node_text(*c, src))));
        }
        i += 1;
    }
    r
}

/// A struct's signature, as [`struct_signature`] says.
fn struct_signature_exec(n: &SyntaxNode, name: &str, source: &str) -> (r: Option<String>)
    ensures
        opt_chars(r) == struct_signature(*n, name@, encode_utf8(source@)),
{
    let fl = match find_child_by_kind(n, "field_declaration_list") {
        Some(f) => f,
        None => return None,
    };
    let fields = field_texts_exec(fl, source);
    if fields.len() == 0 {
        return None;
    }
    let ghost fv = views(fields@);
    let many = fields.len() > 5;
    let shown = if many {
        let mut t: Vec<Vec<char>> = Vec::new();
        let mut i: usize = 0;
        while i < 5
            invariant
                i <= 5 < fields@.len(),
                fv == views(fields@),
                views(t@) == fv.take(i as int),
            decreases 5 - i,
        {
            let ghost before = views(t@);
            t.push(copy_chars(&fields[i]));
            assert(views(t@) =~= before.push(fv[i as int]));
            assert(views(t@) =~= fv.take(i + 1));
            i += 1;
        }
        t
    } else {
        fields
    };
    let mut out = chars_of("struct ");
    append_chars(&mut out, &chars_of(name));
    append_chars(&mut out, &chars_of(" { "));
    append_chars(&mut out, &join_chars(&shown, &chars_of(", ")));
    append_chars(&mut out, &chars_of(" "));
    let ghost head = out@;
    if many {
        append_chars(&mut out, &chars_of(", ..."));
    } else {
        assert(head + Seq::<char>::empty() =~= head);
    }
    append_chars(&mut out, &chars_of(" }"));
    Some(string_of(&out))
}

/// A struct, as [`struct_symbol`] says: the symbol, and the references of
/// its derives recorded.
fn struct_symbol_exec(
    n: &SyntaxNode,
    idx: usize,
    siblings: &Vec<SyntaxNode>,
    pos: usize,
    source: &str,
    path: &str,
    refs: &mut Vec<UnresolvedRef>,
) -> (r: Option<ExtractedNode>)
    requires
        n.start_row < usize::MAX,
        n.end_row < usize::MAX,
        pos <= siblings@.len(),
    ensures
        match r {
            Some(e) => struct_symbol(*n, idx as int, siblings@.take(pos as int), encode_utf8(source@), path@, ref_views(old(refs)@))
                == Some((e@, ref_views(final(refs)@))),
            None => struct_symbol(*n, idx as int, siblings@.take(pos as int), encode_utf8(source@), path@, ref_views(old(refs)@))
                is None && final(refs)@ == old(refs)@,
        },
{
    let nm = match find_child_by_kind(n, "type_identifier") {
        Some(x) => x,
        None => return None,
    };
    let name = text_of(nm, source);
    let vis = visibility_exec(n, source);
    let export = is_pub(&vis);
    let sig = struct_signature_exec(n, name.as_str(), source);
    let mut derive: Option<String> = None;
    let mut cfg: Option<String> = None;
    scan_attributes_exec(siblings, pos, idx, source, &mut derive, &mut cfg, refs);
    let q = qualify_exec(path, name.as_str());
    let doc = doc_comments_exec(siblings, pos, source);
    let mut e = make_symbol(NodeKind::Struct, name, Some(q), sig, doc, n, vis, export);
    e.metadata = metadata_exec(cfg, derive, None);
    Some(e)
}

/// An enum, as [`enum_symbol`] says.
fn enum_symbol_exec(n: &SyntaxNode, siblings: &Vec<SyntaxNode>, pos: usize, source: &str, path: &str) -> (r: Option<ExtractedNode>)
    requires
        n.start_row < usize::MAX,
        n.end_row < usize::MAX,
        pos <= siblings@.len(),
    ensures
        match r {
            Some(e) => enum_symbol(*n, siblings@.take(pos as int), encode_utf8(source@), path@) == Some(e@),
            None => enum_symbol(*n, siblings@.take(pos as int), encode_utf8(source@), path@) is None,
        },
{
    let nm = match find_child_by_kind(n, "type_identifier") {
        Some(x) => x,
        None => return None,
    };
    let name = text_of(nm, source);
    let vis = visibility_exec(n, source);
    let export = is_pub(&vis);
    let mut derive: Option<String> = None;
    let mut cfg: Option<String> = None;
    let mut discarded: Vec<UnresolvedRef> = Vec::new();
    proof {
        assert(ref_views(discarded@) =~= Seq::<RefView>::empty());
    }
    scan_attributes_exec(siblings, pos, 0, source, &mut derive, &mut cfg, &mut discarded);
    let q = qualify_exec(path, name.as_str());
    let doc = doc_comments_exec(siblings, pos, source);
    let mut e = make_symbol(NodeKind::Enum, name, Some(q), None, doc, n, vis, export);
    e.metadata = metadata_exec(cfg, derive, None);
    Some(e)
}

/// A trait, as [`trait_symbol`] says.
fn trait_symbol_exec(n: &SyntaxNode, siblings: &Vec<SyntaxNode>, pos: usize, source: &str, path: &str) -> (r: Option<ExtractedNode>)
    requires
        n.start_row < usize::MAX,
        n.end_row < usize::MAX,
        pos <= siblings@.len(),
    ensures
        match r {
            Some(e) => trait_symbol(*n, siblings@.take(pos as int), encode_utf8(source@), path@) == Some(e@),
            None => trait_symbol(*n, siblings@.take(pos as int), encode_utf8(source@), path@) is None,
        },
{
    let nm = match find_child_by_kind(n, "type_identifier") {
        Some(x) => x,
        None => return None,
    };
    let name = text_of(nm, source);
    let vis = visibility_exec(n, source);
    let export = is_pub(&vis);
    let q = qualify_exec(path, name.as_str());
    let doc = doc_comments_exec(siblings, pos, source);
    Some(make_symbol(NodeKind::Trait, name, Some(q), None, doc, n, vis, export))
}

/// An impl block, as [`impl_symbol`] says.
fn impl_symbol_exec(n: &SyntaxNode, source: &str, path: &str) -> (r: Option<ExtractedNode>)
    requires
        n.start_row < usize::MAX,
        n.end_row < usize::MAX,
    ensures
        match r {
            Some(e) => impl_symbol(*n, encode_utf8(source@), path@) == Some(e@),
            None => impl_symbol(*n, encode_utf8(source@), path@) is None,
        },
{
    let t = match find_child_by_kind(n, "type_identifier") {
        Some(t) => t,
        None => match find_child_by_kind(n, "generic_type") {
            Some(t) => t,
            None => return None,
        },
    };
    let name = chars_of(text_of(t, source).as_str());
    let mut label = chars_of("impl ");
    append_chars(&mut label, &name);
    let mut q = chars_of(path);
    append_chars(&mut q, &chars_of("::impl_"));
    append_chars(&mut q, &name);
    Some(make_symbol(NodeKind::Impl, string_of(&label), Some(string_of(&q)), None, None, n, None, false))
}

/// A type alias or a constant (by the kind of its name node), as
/// [`type_symbol`] and [`const_symbol`] say.
fn named_line_symbol_exec(
    n: &SyntaxNode,
    name_kind: &str,
    kind: NodeKind,
    siblings: &Vec<SyntaxNode>,
    pos: usize,
    source: &str,
    path: &str,
) -> (r: Option<ExtractedNode>)
    requires
        n.start_row < usize::MAX,
        n.end_row < usize::MAX,
        pos <= siblings@.len(),
        (name_kind@ == "type_identifier"@ && kind == NodeKind::TypeAlias) || (name_kind@ == "identifier"@ && kind
            == NodeKind::Constant),
    ensures
        ({
            let spec_r = if kind == NodeKind::TypeAlias {
                type_symbol(*n, siblings@.take(pos as int), encode_utf8(source@), path@)
            } else {
                const_symbol(*n, siblings@.take(pos as int), encode_utf8(source@), path@)
            };
            match r {
                Some(e) => spec_r == Some(e@),
                None => spec_r is None,
            }
        }),
{
    let nm = match find_child_by_kind(n, name_kind) {
        Some(x) => x,
        None => return None,
    };
    let name = text_of(nm, source);
    let vis = visibility_exec(n, source);
    let q = qualify_exec(path, name.as_str());
    let sig = first_line_exec(text_of(n, source).as_str());
    let doc = doc_comments_exec(siblings, pos, source);
    Some(make_symbol(kind, name, Some(q), Some(sig), doc, n, vis, false))
}

/// A module, as [`module_symbol`] says.
fn module_symbol_exec(n: &SyntaxNode, siblings: &Vec<SyntaxNode>, pos: usize, source: &str, path: &str) -> (r: Option<ExtractedNode>)
    requires
        n.start_row < usize::MAX,
        n.end_row < usize::MAX,
        pos <= siblings@.len(),
    ensures
        match r {
            Some(e) => module_symbol(*n, siblings@.take(pos as int), encode_utf8(source@), path@) == Some(e@),
            None => module_symbol(*n, siblings@.take(pos as int), encode_utf8(source@), path@) is None,
        },
{
    let nm = match find_child_by_kind(n, "identifier") {
        Some(x) => x,
        None => return None,
    };
    let name = text_of(nm, source);
    let vis = visibility_exec(n, source);
    let q = qualify_exec(path, name.as_str());
    let doc = doc_comments_exec(siblings, pos, source);
    Some(make_symbol(NodeKind::Module, name, Some(q), None, doc, n, vis, false))
}

/// Records the variants of an enum, as [`variants_into`] says.
fn variants_exec(
    n: &SyntaxNode,
    enum_idx: usize,
    enum_name: &str,
    source: &str,
    path: &str,
    nodes: &mut Vec<ExtractedNode>,
    edges: &mut Vec<ExtractedEdge>,
    refs: &mut Vec<UnresolvedRef>,
)
    requires
        rows_fit(*n),
    ensures
        extraction_of(final(nodes)@, final(edges)@, final(refs)@) == variants_into(
            *n,
            enum_idx as int,
            enum_name@,
            encode_utf8(source@),
            path@,
            extraction_of(old(nodes)@, old(edges)@, old(refs)@),
        ),
{
    let ghost src = encode_utf8(source@);
    let vl = match find_child_by_kind(n, "enum_variant_list") {
        Some(v) => v,
        None => return,
    };
    proof {
        let j = crate::indexer::syntax::lemma_first_of_kind_index(n.children@, "enum_variant_list"@);
        lemma_rows_fit_child(n.children@, n.children@.len(), j);
    }
    let ghost st0 = extraction_of(nodes@, edges@, refs@);
    let mut i: usize = 0;
    while i < vl.children.len()
        invariant
            i <= vl.children@.len(),
            src == encode_utf8(source@),
            rows_fit(*vl),
            extraction_of(nodes@, edges@, refs@) == variants_among(vl.children@, i as nat, enum_idx as int, enum_name@, src, path@, st0),
        decreases vl.children.len() - i,
    {
        let c = &vl.children[i];
        if same_text(c.kind.as_str(), "enum_variant") {
            if let Some(nm) = find_child_by_kind(c, "identifier") {
                proof {
                    lemma_rows_fit_child(vl.children@, vl.children@.len(), i as int);
                }
                let vname = chars_of(text_of(nm, source).as_str());
                let mut q = chars_of(path);
                append_chars(&mut q, &chars_of("::"));
                append_chars(&mut q, &chars_of(enum_name));
                append_chars(&mut q, &chars_of("::"));
                append_chars(&mut q, &vname);
                let sig = trim_chars(&chars_of(text_of(c, source).as_str()));
                let doc = doc_comments_exec(&vl.children, i, source);
                let idx = nodes.len();
                push_node(nodes, make_symbol(NodeKind::EnumVariant, string_of(&vname), Some(string_of(&q)), Some(string_of(&sig)), doc, c, None, false));
                push_contains(edges, Some(enum_idx), idx);
                let mut derive: Option<String> = None;
                let mut cfg: Option<String> = None;
                scan_attributes_exec(&vl.children, i, idx, source, &mut derive, &mut cfg, refs);
            }
        }
        i += 1;
    }
}

/// Records the trait an impl implements, as [`impl_trait_ref`] says.
fn impl_trait_ref_exec(n: &SyntaxNode, idx: usize, source: &str, refs: &mut Vec<UnresolvedRef>)
    ensures
        ref_views(final(refs)@) == impl_trait_ref(n.children@, idx as int, encode_utf8(source@), ref_views(old(refs)@)),
{
    let ghost src = encode_utf8(source@);
    let ghost goal = impl_scan(n.children@, 0, false, None, src);
    let mut seen_impl = false;
    let mut name: Option<String> = None;
    let mut has_for = false;
    let mut i: usize = 0;
    while i < n.children.len() && !has_for
        invariant
            i <= n.children@.len(),
            src == encode_utf8(source@),
            !has_for ==> goal == impl_scan(n.children@, i as int, seen_impl, opt_chars(name), src),
            has_for ==> goal == (true, opt_chars(name)),
        decreases n.children.len() - i + if has_for { 0int } else { 1int },
    {
        let c = &n.children[i];
        let k = c.kind.as_str();
        if same_text(k, "impl") {
            seen_impl = true;
            i += 1;
        } else if same_text(k, "for") {
            has_for = true;
        } else {
            if (same_text(k, "type_identifier") || same_text(k, "scoped_type_identifier") || same_text(k, "generic_type"))
                && seen_impl && name.is_none() {
                name = Some(text_of(c, source));
            }
            i += 1;
        }
    }
    proof {
        if !has_for {
            assert(goal == (false, opt_chars(name)));
        }
    }
    if has_for {
        if let Some(t) = name {
            push_ref(refs, make_ref(idx, t, EdgeKind::Implements, None, None));
        }
    }
}

/// Records the trait bounds among a node's children, as [`bounds_among`] says.
fn bounds_exec(g: &SyntaxNode, idx: usize, source: &str, refs: &mut Vec<UnresolvedRef>)
    ensures
        ref_views(final(refs)@) == bounds_among(g.children@, g.children@.len(), idx as int, encode_utf8(source@), ref_views(old(refs)@)),
{
    let ghost src = encode_utf8(source@);
    let ghost r0 = ref_views(refs@);
    let mut i: usize = 0;
    while i < g.children.len()
        invariant
            i <= g.children@.len(),
            src == encode_utf8(source@),
            ref_views(refs@) == bounds_among(g.children@, i as nat, idx as int, src, r0),
        decreases g.children.len() - i,
    {
        let b = &g.children[i];
        if same_text(b.kind.as_str(), "trait_bound") {
            let t = match find_child_by_kind(b, "type_identifier") {
                Some(t) => Some(t),
                None => match find_child_by_kind(b, "scoped_type_identifier") {
                    Some(t) => Some(t),
                    None => find_child_by_kind(b, "generic_type"),
                },
            };
            if let Some(t) = t {
                push_ref(refs, make_ref(idx, text_of(t, source), EdgeKind::TypeRef, None, None));
            }
        }
        i += 1;
    }
}

/// Records the bounds in the entries of kind `entry` of a clause, as
/// [`clause_bounds`] says.
fn clause_bounds_exec(cl: &SyntaxNode, entry: &str, idx: usize, source: &str, refs: &mut Vec<UnresolvedRef>)
    ensures
        ref_views(final(refs)@) == clause_bounds(cl.children@, cl.children@.len(), entry@, idx as int, encode_utf8(source@), ref_views(old(refs)@)),
{
    let ghost src = encode_utf8(source@);
    let ghost r0 = ref_views(refs@);
    let mut i: usize = 0;
    while i < cl.children.len()
        invariant
            i <= cl.children@.len(),
            src == encode_utf8(source@),
            ref_views(refs@) == clause_bounds(cl.children@, i as nat, entry@, idx as int, src, r0),
        decreases cl.children.len() - i,
    {
        let c = &cl.children[i];
        if same_text(c.kind.as_str(), entry) {
            bounds_exec(c, idx, source, refs);
        }
        i += 1;
    }
}

/// Records an item's generic bounds, as [`generic_bounds`] says.
fn generic_bounds_exec(n: &SyntaxNode, idx: usize, source: &str, refs: &mut Vec<UnresolvedRef>)
    ensures
        ref_views(final(refs)@) == generic_bounds(*n, idx as int, encode_utf8(source@), ref_views(old(refs)@)),
{
    if let Some(t) = find_child_by_kind(n, "type_parameters") {
        clause_bounds_exec(t, "constrained_type_parameter", idx, source, refs);
    }
    if let Some(w) = find_child_by_kind(n, "where_clause") {
        clause_bounds_exec(w, "where_predicate", idx, source, refs);
    }
}

/// The label a call inherits from an enclosing node of this kind.
fn call_label_exec(k: &str) -> (r: Option<String>)
    ensures
        opt_chars(r) == call_label(k@),
{
    if same_text(k, "if_expression") || same_text(k, "match_expression") {
        Some("conditional".to_string())
    } else if same_text(k, "for_expression") || same_text(k, "while_expression") || same_text(k, "loop_expression") {
        Some("loop".to_string())
    } else if same_text(k, "try_expression") {
        Some("error_propagation".to_string())
    } else {
        None
    }
}

/// Records the calls inside `n`, as [`rust_calls_in`] says.
fn calls_in_exec(n: &SyntaxNode, idx: usize, context: &Option<String>, source: &str, refs: &mut Vec<UnresolvedRef>)
    ensures
        ref_views(final(refs)@) == rust_calls_in(*n, idx as int, opt_chars(*context), encode_utf8(source@), ref_views(old(refs)@)),
    decreases n,
{
    let ghost src = encode_utf8(source@);
    if same_text(n.kind.as_str(), "call_expression") && n.children.len() > 0 {
        push_ref(refs, make_ref(idx, text_of(&n.children[0], source), EdgeKind::Calls, None, context.clone()));
    }
    let inner = match call_label_exec(n.kind.as_str()) {
        Some(l) => Some(l),
        None => context.clone(),
    };
    let ghost r0 = ref_views(refs@);
    let mut i: usize = 0;
    while i < n.children.len()
        invariant
            i <= n.children@.len(),
            src == encode_utf8(source@),
            ref_views(refs@) == rust_calls_among(n.children@, i as nat, idx as int, opt_chars(inner), src, r0),
        decreases n.children.len() - i,
    {
        let c = &n.children[i];
        if !same_text(c.kind.as_str(), "closure_expression") {
            calls_in_exec(c, idx, &inner, source, refs);
        }
        i += 1;
    }
}

/// Records the identifiers of a `use` tree, as [`use_names`] says.
fn use_names_exec(n: &SyntaxNode, idx: usize, source: &str, refs: &mut Vec<UnresolvedRef>)
    ensures
        ref_views(final(refs)@) == use_names(*n, idx as int, encode_utf8(source@), ref_views(old(refs)@)),
    decreases n,
{
    let ghost src = encode_utf8(source@);
    if same_text(n.kind.as_str(), "identifier") {
        push_ref(refs, make_ref(idx, text_of(n, source), EdgeKind::Imports, None, None));
        return;
    }
    let ghost r0 = ref_views(refs@);
    let mut i: usize = 0;
    while i < n.children.len()
        invariant
            i <= n.children@.len(),
            src == encode_utf8(source@),
            n.kind@ != "identifier"@,
            ref_views(refs@) == use_names_among(n.children@, i as nat, idx as int, src, r0),
        decreases n.children.len() - i,
    {
        use_names_exec(&n.children[i], idx, source, refs);
        i += 1;
    }
}

/// Records a `use` declaration, as [`use_into`] says.
fn use_into_exec(n: &SyntaxNode, source: &str, nodes: &mut Vec<ExtractedNode>, refs: &mut Vec<UnresolvedRef>)
    requires
        n.start_row < usize::MAX,
        n.end_row < usize::MAX,
    ensures
        ({
            let st = use_into(*n, encode_utf8(source@), (node_views(old(nodes)@), seq![], ref_views(old(refs)@)));
            node_views(final(nodes)@) == st.0 && ref_views(final(refs)@) == st.2
        }),
{
    let ghost src = encode_utf8(source@);
    let idx = nodes.len();
    push_node(nodes, make_symbol(NodeKind::Import, text_of(n, source), None, None, None, n, None, false));
    let ghost r0 = ref_views(refs@);
    let mut i: usize = 0;
    while i < n.children.len()
        invariant
            i <= n.children@.len(),
            src == encode_utf8(source@),
            ref_views(refs@) == use_parts_among(n.children@, i as nat, idx as int, src, r0),
        decreases n.children.len() - i,
    {
        let c = &n.children[i];
        if !(same_text(c.kind.as_str(), "use") || same_text(c.kind.as_str(), "visibility_modifier")) {
            use_names_exec(c, idx, source, refs);
        }
        i += 1;
    }
}

/// What an item that encloses nothing records before its children are
/// walked: the inner `else` of [`rust_walk`].
pub open spec fn other_item(
    n: SyntaxNode,
    before: Seq<SyntaxNode>,
    parent: Option<int>,
    src: Seq<u8>,
    path: Seq<char>,
    st: Extraction,
) -> Extraction {
    let k = n.kind@;
    let idx = st.0.len() as int;
    if k == "struct_item"@ && struct_symbol(n, idx, before, src, path, st.2) is Some {
        let (v, r) = struct_symbol(n, idx, before, src, path, st.2)->0;
        let a = add_symbol((st.0, st.1, r), v, parent);
        (a.0, a.1, generic_bounds(n, idx, src, a.2))
    } else if k == "enum_item"@ && enum_symbol(n, before, src, path) is Some {
        let v = enum_symbol(n, before, src, path)->0;
        let b = variants_into(n, idx, v.name, src, path, add_symbol(st, v, parent));
        (b.0, b.1, generic_bounds(n, idx, src, b.2))
    } else if k == "type_item"@ && type_symbol(n, before, src, path) is Some {
        add_symbol(st, type_symbol(n, before, src, path)->0, parent)
    } else if (k == "const_item"@ || k == "static_item"@) && const_symbol(n, before, src, path) is Some {
        add_symbol(st, const_symbol(n, before, src, path)->0, parent)
    } else if k == "use_declaration"@ {
        use_into(n, src, st)
    } else {
        st
    }
}

/// Records an item that encloses nothing, as [`other_item`] says.
fn other_item_exec(
    n: &SyntaxNode,
    siblings: &Vec<SyntaxNode>,
    pos: usize,
    parent: Option<usize>,
    source: &str,
    path: &str,
    nodes: &mut Vec<ExtractedNode>,
    edges: &mut Vec<ExtractedEdge>,
    refs: &mut Vec<UnresolvedRef>,
)
    requires
        rows_fit(*n),
        pos <= siblings@.len(),
    ensures
        extraction_of(final(nodes)@, final(edges)@, final(refs)@) == other_item(
            *n,
            siblings@.take(pos as int),
            opt_index(parent),
            encode_utf8(source@),
            path@,
            extraction_of(old(nodes)@, old(edges)@, old(refs)@),
        ),
{
    let k = n.kind.as_str();
    let idx = nodes.len();
    let s = if same_text(k, "struct_item") {
        struct_symbol_exec(n, idx, siblings, pos, source, path, refs)
    } else {
        None
    };
    if let Some(e) = s {
        push_node(nodes, e);
        push_contains(edges, parent, idx);
        generic_bounds_exec(n, idx, source, refs);
        return;
    }
    let en = if same_text(k, "enum_item") {
        enum_symbol_exec(n, siblings, pos, source, path)
    } else {
        None
    };
    if let Some(e) = en {
        let name = e.name.clone();
        push_node(nodes, e);
        push_contains(edges, parent, idx);
        variants_exec(n, idx, name.as_str(), source, path, nodes, edges, refs);
        generic_bounds_exec(n, idx, source, refs);
        return;
    }
    let ty = if same_text(k, "type_item") {
        named_line_symbol_exec(n, "type_identifier", NodeKind::TypeAlias, siblings, pos, source, path)
    } else {
        None
    };
    if let Some(e) = ty {
        push_node(nodes, e);
        push_contains(edges, parent, idx);
        return;
    }
    let c = if same_text(k, "const_item") || same_text(k, "static_item") {
        named_line_symbol_exec(n, "identifier", NodeKind::Constant, siblings, pos, source, path)
    } else {
        None
    };
    if let Some(e) = c {
        push_node(nodes, e);
        push_contains(edges, parent, idx);
        return;
    }
    if same_text(k, "use_declaration") {
        let ghost e0 = edges@;
        use_into_exec(n, source, nodes, refs);
        assert(edge_views(edges@) == edge_views(e0));
    }
}

/// Walks the subtree at `n` as [`rust_walk`] says; its previous siblings
/// are the first `pos` of `siblings`.
fn walk(
    n: &SyntaxNode,
    parent_kind: Option<&str>,
    siblings: &Vec<SyntaxNode>,
    pos: usize,
    parent: Option<usize>,
    source: &str,
    path: &str,
    nodes: &mut Vec<ExtractedNode>,
    edges: &mut Vec<ExtractedEdge>,
    refs: &mut Vec<UnresolvedRef>,
)
    requires
        rows_fit(*n),
        pos <= siblings@.len(),
    ensures
        extraction_of(final(nodes)@, final(edges)@, final(refs)@) == rust_walk(
            *n,
            opt_str(parent_kind),
            siblings@.take(pos as int),
            opt_index(parent),
            encode_utf8(source@),
            path@,
            extraction_of(old(nodes)@, old(edges)@, old(refs)@),
        ),
    decreases n,
{
    let ghost src = encode_utf8(source@);
    let ghost st0 = extraction_of(nodes@, edges@, refs@);
    let k = n.kind.as_str();
    let idx = nodes.len();
    let mut scope = parent;
    let f = if same_text(k, "function_item") {
        function_symbol_exec(n, parent, parent_kind, siblings, pos, source, path)
    } else {
        None
    };
    if let Some(e) = f {
        push_node(nodes, e);
        push_contains(edges, parent, idx);
        generic_bounds_exec(n, idx, source, refs);
        calls_in_exec(n, idx, &None, source, refs);
        scope = Some(idx);
    } else {
        let t = if same_text(k, "trait_item") {
            trait_symbol_exec(n, siblings, pos, source, path)
        } else {
            None
        };
        if let Some(e) = t {
            push_node(nodes, e);
            push_contains(edges, parent, idx);
            generic_bounds_exec(n, idx, source, refs);
            scope = Some(idx);
        } else {
            let im = if same_text(k, "impl_item") {
                impl_symbol_exec(n, source, path)
            } else {
                None
            };
            if let Some(e) = im {
                push_node(nodes, e);
                push_contains(edges, parent, idx);
                impl_trait_ref_exec(n, idx, source, refs);
                generic_bounds_exec(n, idx, source, refs);
                scope = Some(idx);
            } else {
                let m = if same_text(k, "mod_item") {
                    module_symbol_exec(n, siblings, pos, source, path)
                } else {
                    None
                };
                if let Some(e) = m {
                    push_node(nodes, e);
                    push_contains(edges, parent, idx);
                    scope = Some(idx);
                } else {
                    other_item_exec(n, siblings, pos, parent, source, path, nodes, edges, refs);
                }
            }
        }
    }
    let ghost st1 = extraction_of(nodes@, edges@, refs@);
    let mut i: usize = 0;
    while i < n.children.len()
        invariant
            i <= n.children@.len(),
            src == encode_utf8(source@),
            rows_fit(*n),
            k@ == n.kind@,
            extraction_of(nodes@, edges@, refs@) == rust_walk_among(n.children@, i as nat, n.kind@, opt_index(scope), src, path@, st1),
        decreases n.children.len() - i,
    {
        proof {
            lemma_rows_fit_child(n.children@, n.children@.len(), i as int);
        }
        walk(&n.children[i], Some(k), &n.children, i, scope, source, path, nodes, edges, refs);
        i += 1;
    }
}

/// Symbol extraction for Rust.
pub struct RustExtractor;

/// What extraction yields for a Rust tree: the walk from the root over an
/// empty record, with no file facts yet.
pub open spec fn rust_file(r: ExtractedFile, tree: SyntaxNode, src: Seq<u8>, path: Seq<char>) -> bool {
    &&& r.language == Language::Rust
    &&& r.content_hash@.len() == 0
    &&& r.mtime_ns == 0
    &&& r.size_bytes == 0
    &&& r.structure_hash is None
    &&& extraction_of(r.nodes@, r.edges@, r.unresolved_refs@) == rust_walk(tree, None, seq![], None, src, path, (seq![], seq![], seq![]))
}

impl RustExtractor {
    /// The language this extractor handles.
    pub fn language(&self) -> (r: Language)
        ensures
            r == Language::Rust,
    {
        Language::Rust
    }

    /// Walks the tree in pre-order recording functions and methods (with
    /// their generic bounds and the calls in their bodies, each labelled by
    /// the branch, loop or `?` it sits in), structs, enums and variants,
    /// traits, impls (with the trait they implement), type aliases,
    /// constants, modules and `use` declarations; items inside functions,
    /// traits, impls and modules are contained in them.
    pub fn extract(&self, tree: &SyntaxNode, source: &str, file_path: &str) -> (r: ExtractedFile)
        requires
            rows_fit(*tree),
        ensures
            rust_file(r, *tree, encode_utf8(source@), file_path@),
    {
        let mut nodes: Vec<ExtractedNode> = Vec::new();
        let mut edges: Vec<ExtractedEdge> = Vec::new();
        let mut refs: Vec<UnresolvedRef> = Vec::new();
        let none: Vec<SyntaxNode> = Vec::new();
        proof {
            assert(node_views(nodes@) =~= Seq::<NodeView>::empty());
            assert(edge_views(edges@) =~= Seq::<EdgeView>::empty());
            assert(ref_views(refs@) =~= Seq::<RefView>::empty());
            assert(none@.take(0) =~= Seq::<SyntaxNode>::empty());
        }
        walk(tree, None, &none, 0, None, source, file_path, &mut nodes, &mut edges, &mut refs);
        ExtractedFile {
            language: Language::Rust,
            content_hash: String::new(),
            mtime_ns: 0,
            size_bytes: 0,
            nodes,
            edges,
            unresolved_refs: refs,
            structure_hash: None,
        }
    }
}

/// Parses a Rust text and extracts its symbols; `None` when the parser
/// gives no tree or a row too large for a line number.
pub fn extract_rust(source: &str, file_path: &str) -> (r: Option<ExtractedFile>)
    ensures
        match syntax_tree(source@, Language::Rust) {
            Some(t) => if rows_fit(t) {
                r matches Some(f) && rust_file(f, t, encode_utf8(source@), file_path@)
            } else {
                r is None
            },
            None => r is None,
        },
        r matches Some(f) ==> linked(extraction_of(f.nodes@, f.edges@, f.unresolved_refs@)),
{
    match parse_syntax(source, Language::Rust) {
        Some(t) => {
            if rows_fit_exec(&t) {
                proof {
                    lemma_rust_extraction_linked(t, encode_utf8(source@), file_path@);
                }
                Some(RustExtractor.extract(&t, source, file_path))
            } else {
                None
            }
        },
        None => None,
    }
}

proof fn lemma_scan_attributes_within(before: Seq<SyntaxNode>, idx: int, src: Seq<u8>, a: Attrs, bound: int)
    requires
        refs_within(a.2, bound),
        0 <= idx < bound,
    ensures
        refs_within(scan_attributes(before, idx, src, a).2, bound),
    decreases before.len(),
{
    if before.len() > 0 {
        let p = before.last();
        if p.kind@ == "attribute_item"@ {
            let b = apply_attribute(node_text(p, src), idx, a);
            assert(refs_within(b.2, bound));
            lemma_scan_attributes_within(before.drop_last(), idx, src, b, bound);
        } else if is_comment_kind(p.kind@) {
            lemma_scan_attributes_within(before.drop_last(), idx, src, a, bound);
        }
    }
}

proof fn lemma_bounds_within(gs: Seq<SyntaxNode>, k: nat, idx: int, src: Seq<u8>, refs: Seq<RefView>, bound: int)
    requires
        refs_within(refs, bound),
        0 <= idx < bound,
    ensures
        refs_within(bounds_among(gs, k, idx, src, refs), bound),
    decreases k,
{
    if k > 0 && k <= gs.len() {
        lemma_bounds_within(gs, (k - 1) as nat, idx, src, refs, bound);
    }
}

proof fn lemma_clause_bounds_within(
    cs: Seq<SyntaxNode>,
    k: nat,
    entry: Seq<char>,
    idx: int,
    src: Seq<u8>,
    refs: Seq<RefView>,
    bound: int,
)
    requires
        refs_within(refs, bound),
        0 <= idx < bound,
    ensures
        refs_within(clause_bounds(cs, k, entry, idx, src, refs), bound),
    decreases k,
{
    if k > 0 && k <= cs.len() {
        lemma_clause_bounds_within(cs, (k - 1) as nat, entry, idx, src, refs, bound);
        let r = clause_bounds(cs, (k - 1) as nat, entry, idx, src, refs);
        let c = cs[k - 1];
        lemma_bounds_within(c.children@, c.children@.len(), idx, src, r, bound);
    }
}

proof fn lemma_generic_bounds_within(n: SyntaxNode, idx: int, src: Seq<u8>, refs: Seq<RefView>, bound: int)
    requires
        refs_within(refs, bound),
        0 <= idx < bound,
    ensures
        refs_within(generic_bounds(n, idx, src, refs), bound),
{
    let cs = n.children@;
    let r = match first_of_kind(cs, "type_parameters"@) {
        Some(t) => clause_bounds(t.children@, t.children@.len(), "constrained_type_parameter"@, idx, src, refs),
        None => refs,
    };
    match first_of_kind(cs, "type_parameters"@) {
        Some(t) => lemma_clause_bounds_within(
            t.children@,
            t.children@.len(),
            "constrained_type_parameter"@,
            idx,
            src,
            refs,
            bound,
        ),
        None => {},
    }
    match first_of_kind(cs, "where_clause"@) {
        Some(w) => lemma_clause_bounds_within(w.children@, w.children@.len(), "where_predicate"@, idx, src, r, bound),
        None => {},
    }
}

proof fn lemma_rust_calls_within(
    n: SyntaxNode,
    idx: int,
    context: Option<Seq<char>>,
    src: Seq<u8>,
    refs: Seq<RefView>,
    bound: int,
)
    requires
        refs_within(refs, bound),
        0 <= idx < bound,
    ensures
        refs_within(rust_calls_in(n, idx, context, src, refs), bound),
    decreases n, 0nat,
{
    let r = if n.kind@ == "call_expression"@ && n.children@.len() > 0 {
        refs.push(reference(idx, node_text(n.children@[0], src), EdgeKind::Calls, None, context))
    } else {
        refs
    };
    assert(refs_within(r, bound));
    let inner = match call_label(n.kind@) {
        Some(l) => Some(l),
        None => context,
    };
    lemma_rust_calls_among_within(n.children@, n.children@.len(), idx, inner, src, r, bound);
}

proof fn lemma_rust_calls_among_within(
    cs: Seq<SyntaxNode>,
    k: nat,
    idx: int,
    context: Option<Seq<char>>,
    src: Seq<u8>,
    refs: Seq<RefView>,
    bound: int,
)
    requires
        refs_within(refs, bound),
        0 <= idx < bound,
    ensures
        refs_within(rust_calls_among(cs, k, idx, context, src, refs), bound),
    decreases cs, k,
{
    if k > 0 && k <= cs.len() {
        lemma_rust_calls_among_within(cs, (k - 1) as nat, idx, context, src, refs, bound);
        let r = rust_calls_among(cs, (k - 1) as nat, idx, context, src, refs);
        let c = cs[k - 1];
        if c.kind@ != "closure_expression"@ {
            lemma_rust_calls_within(c, idx, context, src, r, bound);
        }
    }
}

proof fn lemma_use_names_within(n: SyntaxNode, idx: int, src: Seq<u8>, refs: Seq<RefView>, bound: int)
    requires
        refs_within(refs, bound),
        0 <= idx < bound,
    ensures
        refs_within(use_names(n, idx, src, refs), bound),
    decreases n, 0nat,
{
    if n.kind@ != "identifier"@ {
        lemma_use_names_among_within(n.children@, n.children@.len(), idx, src, refs, bound);
    }
}

proof fn lemma_use_names_among_within(cs: Seq<SyntaxNode>, k: nat, idx: int, src: Seq<u8>, refs: Seq<RefView>, bound: int)
    requires
        refs_within(refs, bound),
        0 <= idx < bound,
    ensures
        refs_within(use_names_among(cs, k, idx, src, refs), bound),
    decreases cs, k,
{
    if k > 0 && k <= cs.len() {
        lemma_use_names_among_within(cs, (k - 1) as nat, idx, src, refs, bound);
        lemma_use_names_within(cs[k - 1], idx, src, use_names_among(cs, (k - 1) as nat, idx, src, refs), bound);
    }
}

proof fn lemma_use_parts_within(cs: Seq<SyntaxNode>, k: nat, idx: int, src: Seq<u8>, refs: Seq<RefView>, bound: int)
    requires
        refs_within(refs, bound),
        0 <= idx < bound,
    ensures
        refs_within(use_parts_among(cs, k, idx, src, refs), bound),
    decreases k,
{
    if k > 0 && k <= cs.len() {
        lemma_use_parts_within(cs, (k - 1) as nat, idx, src, refs, bound);
        let r = use_parts_among(cs, (k - 1) as nat, idx, src, refs);
        lemma_use_names_within(cs[k - 1], idx, src, r, bound);
    }
}

proof fn lemma_variants_linked(
    cs: Seq<SyntaxNode>,
    k: nat,
    enum_idx: int,
    enum_name: Seq<char>,
    src: Seq<u8>,
    path: Seq<char>,
    st: Extraction,
)
    requires
        linked(st),
        0 <= enum_idx < st.0.len(),
    ensures
        linked(variants_among(cs, k, enum_idx, enum_name, src, path, st)),
        st.0.len() <= variants_among(cs, k, enum_idx, enum_name, src, path, st).0.len(),
    decreases k,
{
    if k > 0 && k <= cs.len() {
        lemma_variants_linked(cs, (k - 1) as nat, enum_idx, enum_name, src, path, st);
        let s = variants_among(cs, (k - 1) as nat, enum_idx, enum_name, src, path, st);
        let idx = s.0.len() as int;
        let before = cs.take(k - 1);
        assert(refs_within(s.2, idx + 1));
        lemma_scan_attributes_within(before, idx, src, (None, None, s.2), idx + 1);
    }
}

proof fn lemma_other_item_linked(
    n: SyntaxNode,
    before: Seq<SyntaxNode>,
    parent: Option<int>,
    src: Seq<u8>,
    path: Seq<char>,
    st: Extraction,
)
    requires
        linked(st),
        parent_within(parent, st.0.len() as int),
    ensures
        linked(other_item(n, before, parent, src, path, st)),
        st.0.len() <= other_item(n, before, parent, src, path, st).0.len(),
{
    let k = n.kind@;
    let idx = st.0.len() as int;
    if k == "struct_item"@ && struct_symbol(n, idx, before, src, path, st.2) is Some {
        assert(refs_within(st.2, idx + 1));
        lemma_scan_attributes_within(before, idx, src, (None, None, st.2), idx + 1);
        let (v, r) = struct_symbol(n, idx, before, src, path, st.2)->0;
        let a = add_symbol((st.0, st.1, r), v, parent);
        lemma_generic_bounds_within(n, idx, src, a.2, idx + 1);
    } else if k == "enum_item"@ && enum_symbol(n, before, src, path) is Some {
        let v = enum_symbol(n, before, src, path)->0;
        let a = add_symbol(st, v, parent);
        match first_of_kind(n.children@, "enum_variant_list"@) {
            Some(vl) => lemma_variants_linked(vl.children@, vl.children@.len(), idx, v.name, src, path, a),
            None => {},
        }
        let b = variants_into(n, idx, v.name, src, path, a);
        lemma_generic_bounds_within(n, idx, src, b.2, b.0.len() as int);
    } else if k == "use_declaration"@ {
        lemma_use_parts_within(n.children@, n.children@.len(), idx, src, st.2, idx + 1);
    }
}

proof fn lemma_rust_walk_linked(
    n: SyntaxNode,
    parent_kind: Option<Seq<char>>,
    before: Seq<SyntaxNode>,
    parent: Option<int>,
    src: Seq<u8>,
    path: Seq<char>,
    st: Extraction,
)
    requires
        linked(st),
        parent_within(parent, st.0.len() as int),
    ensures
        linked(rust_walk(n, parent_kind, before, parent, src, path, st)),
        st.0.len() <= rust_walk(n, parent_kind, before, parent, src, path, st).0.len(),
    decreases n, 0nat,
{
    let k = n.kind@;
    let cs = n.children@;
    let idx = st.0.len() as int;
    if k == "function_item"@ && function_symbol(n, parent, parent_kind, before, src, path) is Some {
        let s1 = add_symbol(st, function_symbol(n, parent, parent_kind, before, src, path)->0, parent);
        lemma_generic_bounds_within(n, idx, src, s1.2, idx + 1);
        lemma_rust_calls_within(n, idx, None, src, generic_bounds(n, idx, src, s1.2), idx + 1);
        let r = rust_calls_in(n, idx, None, src, generic_bounds(n, idx, src, s1.2));
        lemma_rust_walk_among_linked(cs, cs.len(), k, Some(idx), src, path, (s1.0, s1.1, r));
    } else if k == "trait_item"@ && trait_symbol(n, before, src, path) is Some {
        let s1 = add_symbol(st, trait_symbol(n, before, src, path)->0, parent);
        lemma_generic_bounds_within(n, idx, src, s1.2, idx + 1);
        lemma_rust_walk_among_linked(cs, cs.len(), k, Some(idx), src, path, (s1.0, s1.1, generic_bounds(n, idx, src, s1.2)));
    } else if k == "impl_item"@ && impl_symbol(n, src, path) is Some {
        let s1 = add_symbol(st, impl_symbol(n, src, path)->0, parent);
        let r0 = impl_trait_ref(cs, idx, src, s1.2);
        assert(refs_within(r0, idx + 1));
        lemma_generic_bounds_within(n, idx, src, r0, idx + 1);
        let r = generic_bounds(n, idx, src, r0);
        lemma_rust_walk_among_linked(cs, cs.len(), k, Some(idx), src, path, (s1.0, s1.1, r));
    } else if k == "mod_item"@ && module_symbol(n, before, src, path) is Some {
        let s1 = add_symbol(st, module_symbol(n, before, src, path)->0, parent);
        lemma_rust_walk_among_linked(cs, cs.len(), k, Some(idx), src, path, s1);
    } else {
        lemma_other_item_linked(n, before, parent, src, path, st);
        lemma_rust_walk_among_linked(cs, cs.len(), k, parent, src, path, other_item(n, before, parent, src, path, st));
    }
}

proof fn lemma_rust_walk_among_linked(
    cs: Seq<SyntaxNode>,
    k: nat,
    kind: Seq<char>,
    parent: Option<int>,
    src: Seq<u8>,
    path: Seq<char>,
    st: Extraction,
)
    requires
        linked(st),
        parent_within(parent, st.0.len() as int),
    ensures
        linked(rust_walk_among(cs, k, kind, parent, src, path, st)),
        st.0.len() <= rust_walk_among(cs, k, kind, parent, src, path, st).0.len(),
    decreases cs, k,
{
    if k > 0 && k <= cs.len() {
        lemma_rust_walk_among_linked(cs, (k - 1) as nat, kind, parent, src, path, st);
        let s = rust_walk_among(cs, (k - 1) as nat, kind, parent, src, path, st);
        lemma_rust_walk_linked(cs[k - 1], Some(kind), cs.take(k - 1), parent, src, path, s);
    }
}

/// Every relationship and reference the Rust extractor records points at
/// symbols it recorded: containment joins an enclosing symbol to a later
/// one, and calls, bounds, derives, trait implementations and imports come
/// from the symbol being recorded.
pub proof fn lemma_rust_extraction_linked(tree: SyntaxNode, src: Seq<u8>, path: Seq<char>)
    ensures
        linked(rust_walk(tree, None, seq![], None, src, path, (seq![], seq![], seq![]))),
{
    lemma_rust_walk_linked(tree, None, seq![], None, src, path, (seq![], seq![], seq![]));
}

} // verus!
