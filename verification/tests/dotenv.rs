use bexp::indexer::languages::dotenv::extract_dotenv;
use bexp::types::{Language, NodeKind};

fn meta_value<'a>(meta: &'a [(String, String)], key: &str) -> Option<&'a String> {
    meta.iter().find(|(k, _)| k == key).map(|(_, v)| v)
}

#[test]
fn parse_basic_env_file() {
    let source = r#"
# Database config
DATABASE_URL=postgres://localhost/mydb
API_KEY=secret123

# Empty value
EMPTY_VAR=
# Comment
PORT=3000
"#;
    let result = extract_dotenv(source, ".env");
    assert_eq!(result.nodes.len(), 4);
    assert_eq!(result.nodes[0].name, "DATABASE_URL");
    assert_eq!(result.nodes[0].kind, NodeKind::EnvVar);
    assert_eq!(result.nodes[0].qualified_name.as_deref(), Some("env::DATABASE_URL"));
    assert_eq!(result.nodes[1].name, "API_KEY");
    assert_eq!(result.nodes[2].name, "EMPTY_VAR");
    assert_eq!(result.nodes[3].name, "PORT");

    // Check metadata
    let meta = result.nodes[0].metadata.as_ref().unwrap();
    assert_eq!(meta_value(meta, "defined_in"), Some(&".env".to_string()));
}

#[test]
fn deduplicates_keys() {
    let source = "FOO=bar\nFOO=baz\n";
    let result = extract_dotenv(source, ".env");
    assert_eq!(result.nodes.len(), 1);
}

#[test]
fn skips_invalid_keys() {
    let source = "=nokey\n   =bad\nGOOD_KEY=value\n";
    let result = extract_dotenv(source, ".env");
    assert_eq!(result.nodes.len(), 1);
    assert_eq!(result.nodes[0].name, "GOOD_KEY");
}

#[test]
fn dotenv_node_details() {
    let source = "# c\n  KEY_1 = v  \nbad-key=x\nnoequals\n";
    let result = extract_dotenv(source, "cfg/.env.local");
    assert_eq!(result.language, Language::Dotenv);
    assert!(result.edges.is_empty());
    assert!(result.unresolved_refs.is_empty());
    assert_eq!(result.nodes.len(), 1);
    let n = &result.nodes[0];
    assert_eq!(n.name, "KEY_1");
    assert_eq!(n.signature.as_deref(), Some("KEY_1 = v"));
    assert_eq!(n.line_start, 1);
    assert_eq!(n.line_end, 1);
    assert_eq!(n.col_start, 0);
    assert_eq!(n.col_end, "  KEY_1 = v  ".len());
    assert!(n.is_export);
    let meta = n.metadata.as_ref().unwrap();
    assert_eq!(meta_value(meta, "defined_in"), Some(&"cfg/.env.local".to_string()));
}

#[test]
fn empty_env_file_has_no_nodes() {
    assert!(extract_dotenv("", ".env").nodes.is_empty());
}
