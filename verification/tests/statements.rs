use bexp::db::statements::{
    edges_filtered_statement, files_filtered_statement, nodes_fts_statement, nodes_like_statement,
    unresolved_refs_statement, SqlParam,
};

const NODE_COLUMNS: &str = "SELECT n.name, n.qualified_name, n.kind, f.path,\n                n.line_start, n.line_end, n.visibility, n.is_export,\n                n.signature, n.docstring";

fn text(s: &str) -> SqlParam {
    SqlParam::Text(s.to_string())
}

#[test]
fn like_query_with_terms_and_filters() {
    let st = nodes_like_statement(Some("parse x config"), Some("function"), Some("src/"), None, true, 20);
    let expected = format!(
        "{NODE_COLUMNS} FROM nodes n\n         JOIN files f ON f.id = n.file_id\n         WHERE 1=1 AND ((n.name LIKE ?1 COLLATE NOCASE OR n.qualified_name LIKE ?1 COLLATE NOCASE OR n.signature LIKE ?1 COLLATE NOCASE OR f.path LIKE ?1 COLLATE NOCASE) OR (n.name LIKE ?2 COLLATE NOCASE OR n.qualified_name LIKE ?2 COLLATE NOCASE OR n.signature LIKE ?2 COLLATE NOCASE OR f.path LIKE ?2 COLLATE NOCASE)) AND n.kind = ?3 AND f.path LIKE ?4 AND n.is_export = 1 ORDER BY f.path, n.line_start LIMIT ?5"
    );
    assert_eq!(st.sql, expected);
    assert_eq!(st.params, vec![text("%parse%"), text("%config%"), text("function"), text("%src/%"), SqlParam::Integer(20)]);
}

#[test]
fn like_query_of_short_words_matches_whole_text() {
    let st = nodes_like_statement(Some("a b"), None, None, Some("pub"), false, 5);
    assert!(st.sql.ends_with(
        "WHERE 1=1 AND (n.name LIKE ?1 OR n.qualified_name LIKE ?1 OR f.path LIKE ?1) AND n.visibility = ?2 ORDER BY f.path, n.line_start LIMIT ?3"
    ));
    assert_eq!(st.params, vec![text("%a b%"), text("pub"), SqlParam::Integer(5)]);
    let none = nodes_like_statement(None, None, None, None, false, 7);
    assert!(none.sql.ends_with("WHERE 1=1 ORDER BY f.path, n.line_start LIMIT ?1"));
    assert_eq!(none.params, vec![SqlParam::Integer(7)]);
}

#[test]
fn full_text_query_excludes_imports_by_default() {
    let st = nodes_fts_statement("parser", None, None, None, false, 10).unwrap();
    assert!(st.sql.starts_with(NODE_COLUMNS));
    assert!(st.sql.ends_with("WHERE nodes_fts MATCH ?1 AND n.kind != 'import' ORDER BY nf.rank LIMIT ?2"));
    assert_eq!(
        st.params,
        vec![text("{name qualified_name tokenized_name tokenized_qualified_name file_path}: parser"), SqlParam::Integer(10)]
    );
    let k = nodes_fts_statement("parser", Some("struct"), None, Some("pub"), false, 3).unwrap();
    assert!(k.sql.ends_with("MATCH ?1 AND n.kind = ?2 AND n.visibility = ?3 ORDER BY nf.rank LIMIT ?4"));
    assert!(nodes_fts_statement("", None, None, None, false, 3).is_none());
}

#[test]
fn edge_query_directions_and_confidence() {
    let out = edges_filtered_statement(Some("main"), Some("calls"), true, Some("outgoing"), 50);
    assert!(out.sql.ends_with(
        "WHERE 1=1 AND (sn.name = ?1 OR sn.qualified_name = ?1) AND e.kind = ?2 AND e.confidence >= ?3 ORDER BY e.confidence DESC LIMIT ?4"
    ));
    assert_eq!(out.params, vec![text("main"), text("calls"), SqlParam::MinConfidence, SqlParam::Integer(50)]);
    let inc = edges_filtered_statement(Some("main"), None, false, Some("incoming"), 1);
    assert!(inc.sql.ends_with("AND (tn.name = ?1 OR tn.qualified_name = ?1) ORDER BY e.confidence DESC LIMIT ?2"));
    let both = edges_filtered_statement(Some("main"), None, false, None, 1);
    assert!(both.sql.ends_with(
        "AND (sn.name = ?1 OR sn.qualified_name = ?1 OR tn.name = ?1 OR tn.qualified_name = ?1) ORDER BY e.confidence DESC LIMIT ?2"
    ));
    let odd = edges_filtered_statement(Some("main"), None, false, Some("sideways"), 1);
    assert_eq!(odd.sql, both.sql);
    let any = edges_filtered_statement(None, None, true, None, 9);
    assert!(any.sql.ends_with("WHERE 1=1 AND e.confidence >= ?1 ORDER BY e.confidence DESC LIMIT ?2"));
}

#[test]
fn file_listing_orders() {
    let st = files_filtered_statement(Some("rust"), Some("tokens"), 4);
    assert_eq!(
        st.sql,
        "SELECT path, language, size_bytes, token_count, content_hash, indexed_at\n         FROM files WHERE 1=1 AND language = ?1 ORDER BY token_count DESC LIMIT ?2"
    );
    assert_eq!(st.params, vec![text("rust"), SqlParam::Integer(4)]);
    assert!(files_filtered_statement(None, Some("size"), 1).sql.ends_with("ORDER BY size_bytes DESC LIMIT ?1"));
    assert!(files_filtered_statement(None, Some("indexed_at"), 1).sql.ends_with("ORDER BY indexed_at DESC LIMIT ?1"));
    assert!(files_filtered_statement(None, Some("name"), 1).sql.ends_with("ORDER BY path ASC LIMIT ?1"));
}

#[test]
fn unresolved_reference_listing() {
    let st = unresolved_refs_statement(Some("lib"), 8);
    assert!(st.sql.ends_with("WHERE 1=1 AND f.path LIKE ?1 ORDER BY f.path, sn.name LIMIT ?2"));
    assert_eq!(st.params, vec![text("%lib%"), SqlParam::Integer(8)]);
    assert!(unresolved_refs_statement(None, 8).sql.ends_with("WHERE 1=1 ORDER BY f.path, sn.name LIMIT ?1"));
}
