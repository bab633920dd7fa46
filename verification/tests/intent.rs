use bexp::capsule::intent::detect_intent;
use bexp::types::Intent;

#[test]
fn detect_intent_prefers_debug_when_debug_keywords_dominate() {
    let query = "app crash with stack trace and panic when opening settings";
    assert_eq!(detect_intent(query), Intent::Debug);
}

#[test]
fn detect_intent_prefers_blast_radius_when_dependency_keywords_dominate() {
    let query = "what calls this and what depends on this module after refactor";
    assert_eq!(detect_intent(query), Intent::BlastRadius);
}

#[test]
fn detect_intent_returns_modify_for_change_requests() {
    let query = "add a new feature and implement the endpoint";
    assert_eq!(detect_intent(query), Intent::Modify);
}

#[test]
fn detect_intent_returns_explore_when_no_keywords_match() {
    let query = "show me the repository overview";
    assert_eq!(detect_intent(query), Intent::Explore);
}

#[test]
fn detect_intent_is_case_insensitive() {
    assert_eq!(detect_intent("PANIC in the ERROR handler"), Intent::Debug);
}

#[test]
fn detect_intent_empty_query_explores() {
    assert_eq!(detect_intent(""), Intent::Explore);
}

#[test]
fn intent_names_round_trip() {
    for i in [Intent::Debug, Intent::BlastRadius, Intent::Modify, Intent::Explore] {
        assert_eq!(Intent::parse(i.as_str()), Some(i));
    }
    assert_eq!(Intent::parse("blast_radius"), Some(Intent::BlastRadius));
    assert_eq!(Intent::parse("Debug"), None);
    assert_eq!(Intent::parse(""), None);
}
