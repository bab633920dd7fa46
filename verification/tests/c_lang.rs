use bexp::indexer::languages::c_lang::{extract_c, CExtractor};
use bexp::indexer::syntax::{parse_syntax, rows_fit_exec};
use bexp::types::{EdgeKind, Language, NodeKind};

const C_SOURCE: &str = "#include <stdio.h>\n#include \"util.h\"\n// Adds numbers\n// twice\nint add(int a, int b) {\n    return helper(a) + b;\n}\nstruct Point { int x; };\ntypedef unsigned long size_type;\nconst int LIMIT;\nextern int counter;\nchar *home = getenv(\"HOME\");\nstatic void *make(void) { return 0; }\n";

#[test]
fn c_symbols_in_order() {
    let f = extract_c(C_SOURCE, "m.c").unwrap();
    assert_eq!(f.language, Language::C);
    let got: Vec<(NodeKind, &str)> = f.nodes.iter().map(|n| (n.kind, n.name.as_str())).collect();
    assert_eq!(
        got,
        vec![
            (NodeKind::Import, "<stdio.h>"),
            (NodeKind::Import, "\"util.h\""),
            (NodeKind::Function, "add"),
            (NodeKind::Struct, "Point"),
            (NodeKind::TypeAlias, "size_type"),
            (NodeKind::Constant, "LIMIT"),
            (NodeKind::Variable, "counter"),
            (NodeKind::Function, "make"),
            (NodeKind::EnvVar, "HOME"),
        ]
    );
    assert_eq!(f.nodes[2].signature.as_deref(), Some("int add(int a, int b)"));
    assert_eq!(f.nodes[2].docstring.as_deref(), Some("// Adds numbers\n// twice"));
    assert_eq!(f.nodes[2].qualified_name.as_deref(), Some("m.c::add"));
    assert_eq!((f.nodes[2].line_start, f.nodes[2].line_end), (5, 7));
    assert_eq!(f.nodes[3].docstring, None);
    assert_eq!(f.nodes[4].signature.as_deref(), Some("typedef unsigned long size_type;"));
    assert_eq!(f.nodes[5].signature.as_deref(), Some("const int LIMIT;"));
    assert_eq!(f.nodes[7].signature.as_deref(), Some("static void *make(void)"));
}

#[test]
fn c_edges_and_references() {
    let f = extract_c(C_SOURCE, "m.c").unwrap();
    let edges: Vec<(usize, usize, EdgeKind, u32)> =
        f.edges.iter().map(|e| (e.source_idx, e.target_idx, e.kind, e.confidence)).collect();
    assert_eq!(edges, vec![(2, 8, EdgeKind::ReadsEnv, 90)]);
    let refs: Vec<(usize, &str, EdgeKind)> =
        f.unresolved_refs.iter().map(|r| (r.source_idx, r.target_name.as_str(), r.edge_kind)).collect();
    assert_eq!(
        refs,
        vec![(0, "<stdio.h>", EdgeKind::Imports), (1, "\"util.h\"", EdgeKind::Imports), (2, "helper", EdgeKind::Calls)]
    );
}

#[test]
fn c_extractor_on_parsed_tree_without_functions() {
    let src = "int x;\nvoid *p = getenv(\"PATH\");\n";
    let tree = parse_syntax(src, Language::C).unwrap();
    assert!(rows_fit_exec(&tree));
    let f = CExtractor.extract(&tree, src, "a.c");
    assert_eq!(CExtractor.language(), Language::C);
    let names: Vec<&str> = f.nodes.iter().map(|n| n.name.as_str()).collect();
    assert_eq!(names, vec!["x", "PATH"]);
    assert!(f.edges.is_empty());
}
