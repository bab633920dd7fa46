//! Concrete syntax trees as plain values, read from tree-sitter.
use vstd::prelude::*;

use crate::types::Language;
use vstd::utf8::{decode_utf8, encode_utf8, is_char_boundary};

verus! {

/// A node of a concrete syntax tree: its grammar kind, whether it is named
/// (from a named rule, not a literal token), the field it fills in its
/// parent, its byte range, its start and end positions (0-based rows and
/// columns), and its children in order.
#[derive(Debug)]
pub struct SyntaxNode {
    pub kind: String,
    pub named: bool,
    pub field: Option<String>,
    pub start_byte: usize,
    pub end_byte: usize,
    pub start_row: usize,
    pub start_column: usize,
    pub end_row: usize,
    pub end_column: usize,
    pub children: Vec<SyntaxNode>,
}

#[verifier::external_type_specification]
#[verifier::external_body]
pub struct ExTreeSitterNode<'tree>(tree_sitter::Node<'tree>);

/// The tree tree-sitter's grammar for a language gives for a text, read into
/// plain values; `None` when the language has no grammar here or the parser
/// yields no tree.
pub uninterp spec fn syntax_tree(source: Seq<char>, language: Language) -> Option<SyntaxNode>;

/// `tree_sitter::Node`: the node's kind, whether it is named, the given
/// field name, its byte range and positions, and its children (by
/// `Node::children`, each with its `Node::field_name_for_child`), read
/// recursively into plain values.
#[verifier::external_body]
fn syntax_of(node: tree_sitter::Node<'_>, field: Option<&str>) -> SyntaxNode {
    let mut cursor = node.walk();
    let children = node.children(&mut cursor).enumerate()
        .map(|(i, c)| syntax_of(c, node.field_name_for_child(i as u32))).collect();
    SyntaxNode {
        kind: node.kind().to_string(),
        named: node.is_named(),
        field: field.map(|f| f.to_string()),
        start_byte: node.start_byte(),
        end_byte: node.end_byte(),
        start_row: node.start_position().row,
        start_column: node.start_position().column,
        end_row: node.end_position().row,
        end_column: node.end_position().column,
        children,
    }
}

/// `tree_sitter::Parser::parse` with the grammar of the language (from the
/// `tree_sitter_*` crates): the tree of the text as plain values, named
/// `syntax_tree`; it depends on the text and the language alone.
#[verifier::external_body]
pub fn parse_syntax(source: &str, language: Language) -> (r: Option<SyntaxNode>)
    ensures
        r == syntax_tree(source@, language),
{
    let grammar: tree_sitter::Language = match language {
        Language::TypeScript => tree_sitter_typescript::LANGUAGE_TYPESCRIPT.into(),
        Language::JavaScript => tree_sitter_javascript::LANGUAGE.into(),
        Language::Python => tree_sitter_python::LANGUAGE.into(),
        Language::Rust => tree_sitter_rust::LANGUAGE.into(),
        Language::Html => tree_sitter_html::LANGUAGE.into(),
        Language::C => tree_sitter_c::LANGUAGE.into(),
        Language::Cpp => tree_sitter_cpp::LANGUAGE.into(),
        Language::Dotenv => return None,
    };
    let mut parser = tree_sitter::Parser::new();
    parser.set_language(&grammar).ok()?;
    parser.parse(source, None).map(|tree| syntax_of(tree.root_node(), None))
}

/// The node an optional reference points to.
pub open spec fn opt_node(o: Option<&SyntaxNode>) -> Option<SyntaxNode> {
    match o {
        Some(n) => Some(*n),
        None => None,
    }
}

/// The text between two byte offsets of the source: those bytes decoded,
/// or the empty text when the range is not a run of whole characters.
pub open spec fn span_text(start: int, end: int, src: Seq<u8>) -> Seq<char> {
    if 0 <= start <= end <= src.len() && is_char_boundary(src, start) && is_char_boundary(src, end) {
        decode_utf8(src.subrange(start, end))
    } else {
        Seq::empty()
    }
}

/// The text a node spans.
pub open spec fn node_text(n: SyntaxNode, src: Seq<u8>) -> Seq<char> {
    span_text(n.start_byte as int, n.end_byte as int, src)
}

proof fn lemma_boundary_in_prefix(bytes: Seq<u8>, end: int, start: int)
    requires
        vstd::utf8::valid_utf8(bytes),
        0 <= start <= end <= bytes.len(),
        is_char_boundary(bytes, end),
        is_char_boundary(bytes, start),
    ensures
        vstd::utf8::valid_utf8(bytes.subrange(0, end)),
        is_char_boundary(bytes.subrange(0, end), start),
{
    vstd::utf8::valid_utf8_split(bytes, end);
    let head = bytes.subrange(0, end);
    if start == end {
        vstd::utf8::is_char_boundary_start_end_of_seq(head);
    } else {
        vstd::utf8::is_char_boundary_iff_not_is_continuation_byte(bytes, start);
        vstd::utf8::is_char_boundary_iff_not_is_continuation_byte(head, start);
        assert(head[start] == bytes[start]);
    }
}

/// The text between two byte offsets of `source`.
pub fn text_span(source: &str, start: usize, end: usize) -> (r: String)
    ensures
        r@ == span_text(start as int, end as int, encode_utf8(source@)),
{
    let len = source.as_bytes().len();
    if !(start <= end && end <= len && source.is_char_boundary(start) && source.is_char_boundary(end)) {
        return String::new();
    }
    let ghost bytes = encode_utf8(source@);
    proof {
        vstd::utf8::encode_utf8_valid_utf8(source@);
        lemma_boundary_in_prefix(bytes, end as int, start as int);
    }
    let (head, _) = source.split_at(end);
    assert(encode_utf8(head@) == bytes.subrange(0, end as int));
    let (_, mid) = head.split_at(start);
    proof {
        assert(encode_utf8(mid@) =~= bytes.subrange(start as int, end as int));
        vstd::utf8::encode_utf8_decode_utf8(mid@);
    }
    mid.to_owned()
}

/// The text of a node of a tree parsed from `source`.
pub fn text_of(n: &SyntaxNode, source: &str) -> (r: String)
    ensures
        r@ == node_text(*n, encode_utf8(source@)),
{
    text_span(source, n.start_byte, n.end_byte)
}

/// The first child of the given kind.
pub open spec fn first_of_kind(children: Seq<SyntaxNode>, kind: Seq<char>) -> Option<SyntaxNode>
    decreases children.len(),
{
    if children.len() == 0 {
        None
    } else if children[0].kind@ == kind {
        Some(children[0])
    } else {
        first_of_kind(children.drop_first(), kind)
    }
}

/// The first child of `n` whose kind is `kind`.
pub fn find_child_by_kind<'a>(n: &'a SyntaxNode, kind: &str) -> (r: Option<&'a SyntaxNode>)
    ensures
        match r {
            Some(c) => first_of_kind(n.children@, kind@) == Some(*c),
            None => first_of_kind(n.children@, kind@) is None,
        },
{
    let k = crate::text::chars_of(kind);
    let mut i: usize = 0;
    assert(n.children@.skip(0) =~= n.children@);
    while i < n.children.len()
        invariant
            i <= n.children@.len(),
            k@ == kind@,
            first_of_kind(n.children@, kind@) == first_of_kind(n.children@.skip(i as int), kind@),
        decreases n.children.len() - i,
    {
        let c = &n.children[i];
        assert(n.children@.skip(i as int)[0] == n.children@[i as int]);
        if crate::text::eq_chars(&crate::text::chars_of(c.kind.as_str()), &k) {
            return Some(c);
        }
        assert(n.children@.skip(i as int).drop_first() =~= n.children@.skip(i as int + 1));
        i += 1;
    }
    None
}


/// Rows that leave room for the 1-based line numbers, in the whole subtree.
pub open spec fn rows_fit(n: SyntaxNode) -> bool
    decreases n, 0nat,
{
    n.start_row < usize::MAX && n.end_row < usize::MAX && rows_fit_upto(n.children@, n.children@.len())
}

pub open spec fn rows_fit_upto(cs: Seq<SyntaxNode>, k: nat) -> bool
    decreases cs, k,
{
    if k == 0 || k > cs.len() {
        true
    } else {
        rows_fit_upto(cs, (k - 1) as nat) && rows_fit(cs[k - 1])
    }
}

pub proof fn lemma_rows_fit_child(cs: Seq<SyntaxNode>, k: nat, i: int)
    requires
        rows_fit_upto(cs, k),
        k <= cs.len(),
        0 <= i < k,
    ensures
        rows_fit(cs[i]),
    decreases k,
{
    if i < k - 1 {
        lemma_rows_fit_child(cs, (k - 1) as nat, i);
    }
}

/// Whether every row in the subtree leaves room for its 1-based line number.
pub fn rows_fit_exec(n: &SyntaxNode) -> (r: bool)
    ensures
        r == rows_fit(*n),
    decreases n,
{
    if n.start_row == usize::MAX || n.end_row == usize::MAX {
        return false;
    }
    let mut i: usize = 0;
    while i < n.children.len()
        invariant
            i <= n.children@.len(),
            n.start_row < usize::MAX,
            n.end_row < usize::MAX,
            rows_fit_upto(n.children@, i as nat),
        decreases n.children.len() - i,
    {
        if !rows_fit_exec(&n.children[i]) {
            proof {
                if rows_fit(*n) {
                    lemma_rows_fit_child(n.children@, n.children@.len(), i as int);
                }
            }
            return false;
        }
        i += 1;
    }
    true
}

/// Where the first child of a kind stands among the children.
pub proof fn lemma_first_of_kind_index(children: Seq<SyntaxNode>, kind: Seq<char>) -> (j: int)
    requires
        first_of_kind(children, kind) is Some,
    ensures
        0 <= j < children.len(),
        children[j] == first_of_kind(children, kind)->0,
    decreases children.len(),
{
    if children[0].kind@ == kind {
        0
    } else {
        let j = lemma_first_of_kind_index(children.drop_first(), kind);
        j + 1
    }
}

} // verus!
