use bexp::indexer::languages::typescript::{extract_script, JavaScriptExtractor, TypeScriptExtractor};
use bexp::indexer::syntax::{parse_syntax, rows_fit_exec};
use bexp::types::{EdgeKind, Language, NodeKind};

const TS_SOURCE: &str = "import { foo, bar } from './utils';\nexport function add(a: number, b: number): number {\n  return helper(a) + b;\n}\n// A dog\nclass Dog extends Animal implements Pet {\n  bark() { console.log(\"woof\"); }\n}\nconst LIMIT = 10;\n";

#[test]
fn typescript_symbols_in_preorder() {
    let f = extract_script(TS_SOURCE, "a.ts", Language::TypeScript).unwrap();
    assert_eq!(f.language, Language::TypeScript);
    let names: Vec<&str> = f.nodes.iter().map(|n| n.name.as_str()).collect();
    assert_eq!(names, vec!["import { foo, bar } from './utils';", "add", "Dog", "bark", "LIMIT"]);
    assert_eq!(f.nodes[0].kind, NodeKind::Import);
    assert_eq!(f.nodes[1].kind, NodeKind::Function);
    assert_eq!(f.nodes[1].qualified_name.as_deref(), Some("a.ts::add"));
    assert_eq!(f.nodes[1].signature.as_deref(), Some("add(a: number, b: number) : number"));
    assert_eq!((f.nodes[1].line_start, f.nodes[1].line_end), (2, 4));
    assert!(f.nodes[1].is_export);
    assert_eq!(f.nodes[2].kind, NodeKind::Class);
    assert_eq!(f.nodes[2].docstring.as_deref(), Some("// A dog"));
    assert!(!f.nodes[2].is_export);
    assert_eq!(f.nodes[3].kind, NodeKind::Method);
    assert_eq!(f.nodes[3].signature.as_deref(), Some("bark()"));
    assert_eq!(f.nodes[4].kind, NodeKind::Constant);
    assert_eq!(f.nodes[4].signature.as_deref(), Some("const LIMIT = 10;"));
    assert_eq!((f.nodes[4].line_start, f.nodes[4].col_start), (9, 6));
}

#[test]
fn typescript_export_marks_the_last_symbol_before_the_declaration() {
    // The export keyword is walked first, so the symbol recorded just before
    // it (the import) is marked exported too.
    let f = extract_script(TS_SOURCE, "a.ts", Language::TypeScript).unwrap();
    assert!(f.nodes[0].is_export);
}

#[test]
fn typescript_edges_and_references() {
    let f = extract_script(TS_SOURCE, "a.ts", Language::TypeScript).unwrap();
    assert_eq!(f.edges.len(), 1);
    assert_eq!((f.edges[0].source_idx, f.edges[0].target_idx), (2, 3));
    assert_eq!(f.edges[0].kind, EdgeKind::Contains);
    assert_eq!(f.edges[0].confidence, 100);
    let refs: Vec<(usize, &str, EdgeKind)> =
        f.unresolved_refs.iter().map(|r| (r.source_idx, r.target_name.as_str(), r.edge_kind)).collect();
    assert_eq!(
        refs,
        vec![
            (0, "foo", EdgeKind::Imports),
            (0, "bar", EdgeKind::Imports),
            (1, "helper", EdgeKind::Calls),
            (3, "console.log", EdgeKind::Calls),
        ]
    );
    assert_eq!(f.unresolved_refs[0].import_path.as_deref(), Some("./utils"));
    assert_eq!(f.unresolved_refs[2].import_path, None);
}

#[test]
fn javascript_uses_the_same_walk() {
    let src = "function f(x) { g(x); }\nlet y = 1;\n";
    let tree = parse_syntax(src, Language::JavaScript).unwrap();
    assert!(rows_fit_exec(&tree));
    let f = JavaScriptExtractor.extract(&tree, src, "m.js");
    assert_eq!(f.language, Language::JavaScript);
    assert_eq!(JavaScriptExtractor.language(), Language::JavaScript);
    assert_eq!(f.nodes.len(), 2);
    assert_eq!(f.nodes[0].signature.as_deref(), Some("f(x)"));
    assert_eq!(f.nodes[1].kind, NodeKind::Variable);
    assert_eq!(f.unresolved_refs.len(), 1);
    assert_eq!(f.unresolved_refs[0].target_name, "g");
    let ts = TypeScriptExtractor.extract(&tree, src, "m.js");
    assert_eq!(ts.language, Language::TypeScript);
    assert_eq!(ts.nodes.len(), 2);
}

#[test]
fn script_extraction_refuses_other_languages() {
    assert!(extract_script("x = 1", "a.py", Language::Python).is_none());
}
