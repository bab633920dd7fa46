use bexp::db::tokenizer::{tokenize_identifier, tokenize_query};

#[test]
fn camel_case_splitting() {
    assert_eq!(
        tokenize_identifier("parseConfigFile"),
        "parse config file parseconfigfile"
    );
}

#[test]
fn snake_case_splitting() {
    assert_eq!(
        tokenize_identifier("get_node_text"),
        "get node text get_node_text"
    );
}

#[test]
fn pascal_case_splitting() {
    assert_eq!(tokenize_identifier("GraphEngine"), "graph engine graphengine");
}

#[test]
fn mixed_snake_camel() {
    assert_eq!(
        tokenize_identifier("bfs_direction"),
        "bfs direction bfs_direction"
    );
}

#[test]
fn qualified_name_splitting() {
    let result = tokenize_identifier("src/db/queries.rs::insertNode");
    assert!(result.contains("insert"));
    assert!(result.contains("node"));
    assert!(result.contains("queries"));
}

#[test]
fn acronym_splitting() {
    assert_eq!(tokenize_identifier("HTMLParser"), "html parser htmlparser");
}

#[test]
fn single_word() {
    assert_eq!(tokenize_identifier("parse"), "parse");
}

#[test]
fn empty_string() {
    assert_eq!(tokenize_identifier(""), "");
}

#[test]
fn query_tokenization() {
    let result = tokenize_query("parseConfig error handler");
    assert!(result.contains("parse"));
    assert!(result.contains("config"));
    assert!(result.contains("error"));
    assert!(result.contains("handler"));
}

#[test]
fn tokenize_identifier_keeps_repeated_parts() {
    assert_eq!(tokenize_identifier("parse_parse"), "parse parse parse_parse");
}

#[test]
fn tokenize_identifier_of_separators_only() {
    assert_eq!(tokenize_identifier("::"), "::");
    assert_eq!(tokenize_query("a-b c"), "a b ab c");
}
