use bexp::indexer::languages::html::{extract_html, HtmlExtractor};
use bexp::indexer::syntax::rows_fit_exec;
use bexp::indexer::syntax::parse_syntax;
use bexp::types::{EdgeKind, Language, NodeKind};

#[test]
fn html_script_link_and_style_are_extracted() {
    let src = "<html><head>\n<script src=\"app.js\"></script>\n<link rel=\"stylesheet\" href='main.css'>\n<style>p { color: red; }</style>\n</head></html>\n";
    let f = extract_html(src, "index.html").unwrap();
    assert_eq!(f.language, Language::Html);
    assert_eq!(f.nodes.len(), 3);
    assert_eq!(f.nodes[0].kind, NodeKind::Import);
    assert_eq!(f.nodes[0].name, "app.js");
    assert_eq!(f.nodes[0].line_start, 2);
    assert_eq!(f.nodes[0].col_start, 0);
    assert_eq!(f.nodes[1].kind, NodeKind::Import);
    assert_eq!(f.nodes[1].name, "main.css");
    assert_eq!(f.nodes[1].line_start, 3);
    assert_eq!(f.nodes[2].kind, NodeKind::Module);
    assert_eq!(f.nodes[2].name, "<style>");
    assert_eq!(f.nodes[2].qualified_name.as_deref(), Some("index.html::<style>"));
    assert_eq!(f.nodes[2].line_start, 4);
    assert!(!f.nodes[2].is_export);
    assert_eq!(f.unresolved_refs.len(), 2);
    assert_eq!(f.unresolved_refs[0].source_idx, 0);
    assert_eq!(f.unresolved_refs[0].target_name, "app.js");
    assert_eq!(f.unresolved_refs[0].edge_kind, EdgeKind::Imports);
    assert_eq!(f.unresolved_refs[1].source_idx, 1);
    assert_eq!(f.unresolved_refs[1].target_name, "main.css");
    assert!(f.edges.is_empty());
}

#[test]
fn html_inline_script_and_plain_links_are_ignored() {
    let src = "<script>let x = 1;</script><a href=\"page.html\">x</a><link rel=\"icon\">";
    let f = extract_html(src, "a.html").unwrap();
    assert!(f.nodes.is_empty());
    assert!(f.unresolved_refs.is_empty());
}

#[test]
fn html_extractor_on_parsed_tree() {
    let src = "<div><style></style><style></style></div>";
    let tree = parse_syntax(src, Language::Html).unwrap();
    assert!(rows_fit_exec(&tree));
    let f = HtmlExtractor.extract(&tree, src, "x.html");
    assert_eq!(HtmlExtractor.language(), Language::Html);
    assert_eq!(f.nodes.len(), 2);
    assert_eq!(f.nodes[1].qualified_name.as_deref(), Some("x.html::<style>"));
    assert!(f.unresolved_refs.is_empty());
}
