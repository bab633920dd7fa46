use bexp::indexer::languages::python::{extract_python, PythonExtractor};
use bexp::indexer::syntax::{parse_syntax, rows_fit_exec};
use bexp::types::{EdgeKind, Language, NodeKind};

const PY_SOURCE: &str = "import os\nfrom flask import Flask, jsonify\nMAX_SIZE = 10\nclass Base:\n    pass\nclass Dog(Base):\n    \"\"\"A dog.\"\"\"\n    def bark(self, n: int) -> str:\n        if n > 0:\n            speak(n)\n        return \"woof\"\n@app.route('/dogs')\ndef list_dogs():\n    key = os.environ.get('API_KEY')\n    return jsonify([])\n";

#[test]
fn python_symbols_in_order() {
    let f = extract_python(PY_SOURCE, "app.py").unwrap();
    assert_eq!(f.language, Language::Python);
    let got: Vec<(NodeKind, &str)> = f.nodes.iter().map(|n| (n.kind, n.name.as_str())).collect();
    assert_eq!(
        got,
        vec![
            (NodeKind::Import, "import os"),
            (NodeKind::Import, "from flask import Flask, jsonify"),
            (NodeKind::Constant, "MAX_SIZE"),
            (NodeKind::Constant, "MAX_SIZE"),
            (NodeKind::Class, "Base"),
            (NodeKind::Class, "Dog"),
            (NodeKind::Method, "bark"),
            (NodeKind::Function, "list_dogs"),
            (NodeKind::EnvVar, "API_KEY"),
            (NodeKind::ApiEndpoint, "GET /dogs"),
        ]
    );
    assert_eq!(f.nodes[5].docstring.as_deref(), Some("A dog."));
    assert_eq!(f.nodes[6].signature.as_deref(), Some("def bark(self, n: int) -> str"));
    assert_eq!(f.nodes[6].visibility.as_deref(), Some("public"));
    assert_eq!(f.nodes[7].signature.as_deref(), Some("def list_dogs()"));
    assert_eq!(f.nodes[7].line_start, 13);
    assert_eq!(f.nodes[2].signature.as_deref(), Some("MAX_SIZE = 10"));
    assert_eq!(f.nodes[8].qualified_name.as_deref(), Some("env::API_KEY"));
    assert_eq!(f.nodes[9].qualified_name.as_deref(), Some("app.py::api::/dogs"));
    let meta = f.nodes[9].metadata.clone().unwrap();
    assert_eq!(meta, vec![("api_method".to_string(), "GET".to_string()), ("api_path".to_string(), "/dogs".to_string())]);
}

#[test]
fn python_edges() {
    let f = extract_python(PY_SOURCE, "app.py").unwrap();
    let got: Vec<(usize, usize, EdgeKind, u32)> =
        f.edges.iter().map(|e| (e.source_idx, e.target_idx, e.kind, e.confidence)).collect();
    assert_eq!(
        got,
        vec![(5, 6, EdgeKind::Contains, 100), (6, 8, EdgeKind::ReadsEnv, 90), (7, 9, EdgeKind::DefinesApi, 90)]
    );
}

#[test]
fn python_references_with_call_context() {
    let f = extract_python(PY_SOURCE, "app.py").unwrap();
    let got: Vec<(usize, &str, EdgeKind)> =
        f.unresolved_refs.iter().map(|r| (r.source_idx, r.target_name.as_str(), r.edge_kind)).collect();
    assert_eq!(
        got,
        vec![
            (0, "os", EdgeKind::Imports),
            (1, "flask", EdgeKind::Imports),
            (1, "Flask", EdgeKind::Imports),
            (1, "jsonify", EdgeKind::Imports),
            (5, "Base", EdgeKind::Extends),
            (6, "speak", EdgeKind::Calls),
            (7, "os.environ.get", EdgeKind::Calls),
            (7, "jsonify", EdgeKind::Calls),
        ]
    );
    assert_eq!(f.unresolved_refs[2].import_path.as_deref(), Some("flask"));
    assert_eq!(f.unresolved_refs[5].context.as_deref(), Some("conditional"));
    assert_eq!(f.unresolved_refs[6].context, None);
}

#[test]
fn python_visibility_and_django_routes() {
    let src = "def _helper():\n    pass\ndef __secret():\n    pass\ndef __init__():\n    pass\nurlpatterns = [path('items/', views.items), path('items/', views.other)]\n";
    let tree = parse_syntax(src, Language::Python).unwrap();
    assert!(rows_fit_exec(&tree));
    let f = PythonExtractor.extract(&tree, src, "shop/urls.py");
    assert_eq!(PythonExtractor.language(), Language::Python);
    assert_eq!(f.nodes[0].visibility.as_deref(), Some("protected"));
    assert_eq!(f.nodes[1].visibility.as_deref(), Some("private"));
    assert_eq!(f.nodes[2].visibility.as_deref(), Some("protected"));
    let endpoints: Vec<&str> =
        f.nodes.iter().filter(|n| n.kind == NodeKind::ApiEndpoint).map(|n| n.name.as_str()).collect();
    assert_eq!(endpoints, vec!["GET items/"]);
    assert!(f.edges.is_empty());
}
