use bexp::capsule::search::{
    extract_search_terms, path_counts, relevance_counts, sanitize_fts_query, sanitize_fts_query_and,
    tokenize_identifier,
};

#[test]
fn sanitize_documented_examples() {
    assert_eq!(sanitize_fts_query("process_event"), "(process event)");
    assert_eq!(sanitize_fts_query("bet_placed"), "(bet placed)");
    assert_eq!(sanitize_fts_query("dice game logic"), "dice OR game OR logic");
}

#[test]
fn sanitize_drops_stop_words_and_short_parts() {
    assert_eq!(sanitize_fts_query("find the parseConfig function"), "(parse config)");
    assert_eq!(sanitize_fts_query("a b"), "a b");
    assert_eq!(sanitize_fts_query("the \"x\"*"), "the x");
    assert_eq!(sanitize_fts_query(""), "");
}

#[test]
fn sanitize_and_flattens_terms() {
    assert_eq!(sanitize_fts_query_and("process_event handler"), "process event handler");
    assert_eq!(sanitize_fts_query_and("HTMLParser parse"), "html parser parse");
}

#[test]
fn search_terms_and_identifier_parts() {
    assert_eq!(
        extract_search_terms("How does parseConfig handle errors"),
        vec!["parseconfig", "handle", "errors"]
    );
    assert!(extract_search_terms("a find X").is_empty());
    assert_eq!(tokenize_identifier("parseConfigFile"), vec!["parse", "config", "file"]);
}

#[test]
fn and_query_holds_the_or_query_terms_once() {
    assert_eq!(sanitize_fts_query("parseConfig configLoader"), "(parse config) OR (config loader)");
    assert_eq!(sanitize_fts_query_and("parseConfig configLoader"), "parse config loader");
}

#[test]
fn relevance_counts_weigh_name_over_signature() {
    // Terms: "parse", "config" ("the" is a stop word); "parse" is in the name
    // (2) and the signature (1), "config" only in the signature (1).
    assert_eq!(
        relevance_counts("parse the config", "parseFile", Some("fn parse_file(config: &Config)")),
        (4, 2)
    );
    assert_eq!(relevance_counts("the a", "parse", None), (0, 0));
}

#[test]
fn path_counts_match_words_and_substrings() {
    // "function" is a code stop word; "auth" is a path word, "log" occurs in "login".
    assert_eq!(path_counts("auth log function", "src/Auth/login.rs"), (2, 2));
    assert_eq!(path_counts("config", "src/main.rs"), (0, 1));
}
