use bexp::indexer::languages::rust_lang::{extract_rust, RustExtractor};
use bexp::indexer::syntax::{parse_syntax, rows_fit_exec};
use bexp::types::{EdgeKind, Language, NodeKind};

const RS_SOURCE: &str = "use std::collections::{HashMap, HashSet};\n/// A point.\n#[derive(Debug, Clone)]\npub struct Point { x: i32, y: i32 }\npub enum Shape {\n    /// round\n    Circle(f64),\n    Square,\n}\npub trait Area { fn area(&self) -> f64; }\nimpl Area for Point {\n    fn area(&self) -> f64 {\n        if self.x > 0 { compute(self.x) } else { 0.0 }\n    }\n}\nfn helper<T: Clone>(t: T) -> Vec<T> { vec![t] }\nconst MAX: u32 = 10;\nmod inner { pub type Id = u64; }\n";

fn pairs(m: &Option<Vec<(String, String)>>) -> Vec<(&str, &str)> {
    m.iter().flatten().map(|(k, v)| (k.as_str(), v.as_str())).collect()
}

#[test]
fn rust_symbols_in_preorder() {
    let f = extract_rust(RS_SOURCE, "lib.rs").unwrap();
    assert_eq!(f.language, Language::Rust);
    let got: Vec<(NodeKind, &str)> = f.nodes.iter().map(|n| (n.kind, n.name.as_str())).collect();
    assert_eq!(
        got,
        vec![
            (NodeKind::Import, "use std::collections::{HashMap, HashSet};"),
            (NodeKind::Struct, "Point"),
            (NodeKind::Enum, "Shape"),
            (NodeKind::EnumVariant, "Circle"),
            (NodeKind::EnumVariant, "Square"),
            (NodeKind::Trait, "Area"),
            (NodeKind::Impl, "impl Area"),
            (NodeKind::Method, "area"),
            (NodeKind::Function, "helper"),
            (NodeKind::Constant, "MAX"),
            (NodeKind::Module, "inner"),
            (NodeKind::TypeAlias, "Id"),
        ]
    );
}

#[test]
fn rust_struct_details() {
    let f = extract_rust(RS_SOURCE, "lib.rs").unwrap();
    let p = &f.nodes[1];
    assert_eq!(p.signature.as_deref(), Some("struct Point { x: i32, y: i32  }"));
    assert_eq!(p.visibility.as_deref(), Some("pub"));
    assert!(p.is_export);
    assert_eq!(p.docstring, None);
    assert_eq!(pairs(&p.metadata), vec![("derive", "Debug, Clone")]);
    assert_eq!(p.qualified_name.as_deref(), Some("lib.rs::Point"));
}

#[test]
fn rust_variants_methods_and_aliases() {
    let f = extract_rust(RS_SOURCE, "lib.rs").unwrap();
    assert_eq!(f.nodes[3].qualified_name.as_deref(), Some("lib.rs::Shape::Circle"));
    assert_eq!(f.nodes[3].signature.as_deref(), Some("Circle(f64)"));
    assert!(f.nodes[3].docstring.as_deref().unwrap().starts_with("/// round"));
    assert_eq!(f.nodes[4].docstring, None);
    assert_eq!(f.nodes[6].qualified_name.as_deref(), Some("lib.rs::impl_Area"));
    assert_eq!(f.nodes[7].signature.as_deref(), Some("fn area(&self)"));
    assert_eq!(pairs(&f.nodes[7].metadata), vec![("receiver", "&self")]);
    assert_eq!(f.nodes[8].signature.as_deref(), Some("fn helper(t: T) -> Vec<T>"));
    assert!(!f.nodes[8].is_export);
    assert_eq!(f.nodes[9].signature.as_deref(), Some("const MAX: u32 = 10;"));
    assert_eq!(f.nodes[11].signature.as_deref(), Some("pub type Id = u64;"));
    assert_eq!(f.nodes[11].visibility.as_deref(), Some("pub"));
}

#[test]
fn rust_edges_and_references() {
    let f = extract_rust(RS_SOURCE, "lib.rs").unwrap();
    let edges: Vec<(usize, usize, EdgeKind)> = f.edges.iter().map(|e| (e.source_idx, e.target_idx, e.kind)).collect();
    assert_eq!(
        edges,
        vec![(2, 3, EdgeKind::Contains), (2, 4, EdgeKind::Contains), (6, 7, EdgeKind::Contains), (10, 11, EdgeKind::Contains)]
    );
    let refs: Vec<(usize, &str, EdgeKind)> =
        f.unresolved_refs.iter().map(|r| (r.source_idx, r.target_name.as_str(), r.edge_kind)).collect();
    assert_eq!(
        refs,
        vec![
            (0, "std", EdgeKind::Imports),
            (0, "collections", EdgeKind::Imports),
            (0, "HashMap", EdgeKind::Imports),
            (0, "HashSet", EdgeKind::Imports),
            (1, "Debug", EdgeKind::TypeRef),
            (1, "Clone", EdgeKind::TypeRef),
            (6, "Area", EdgeKind::Implements),
            (7, "compute", EdgeKind::Calls),
        ]
    );
    assert_eq!(f.unresolved_refs[7].context.as_deref(), Some("conditional"));
}

#[test]
fn rust_cfg_attribute_and_plain_tree() {
    let src = "#[cfg(test)]\n// note\nfn only_in_tests() {}\n";
    let tree = parse_syntax(src, Language::Rust).unwrap();
    assert!(rows_fit_exec(&tree));
    let f = RustExtractor.extract(&tree, src, "t.rs");
    assert_eq!(RustExtractor.language(), Language::Rust);
    assert_eq!(f.nodes.len(), 1);
    assert_eq!(pairs(&f.nodes[0].metadata), vec![("cfg", "test")]);
    assert!(f.nodes[0].docstring.as_deref().unwrap().starts_with("// note"));
}
