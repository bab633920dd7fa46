use bexp::capsule::pipeline::{capsule_step, CapsuleAction, CapsuleEvent, CapsulePhase, CapsuleState};
use bexp::types::Intent;

fn request(session: Option<&str>, intent_override: Option<&str>) -> CapsuleState {
    CapsuleState::new(
        "how does login work".to_string(),
        8000,
        session.map(|s| s.to_string()),
        intent_override.map(|s| s.to_string()),
        true,
        10,
    )
}

#[test]
fn invalid_intent_override_fails_without_search_or_store() {
    let st = request(None, Some("refactor"));
    let (st, action) = capsule_step(&st, CapsuleEvent::Begin);
    assert_eq!(st.phase, CapsulePhase::Finished);
    match action {
        CapsuleAction::Finish { result: Err(msg), store } => {
            assert_eq!(
                msg,
                "Invalid intent override 'refactor'. Valid values: debug, blast_radius, modify, explore"
            );
            assert!(!store);
        }
        other => panic!("unexpected action {:?}", other),
    }
}

#[test]
fn cached_capsule_is_returned_without_search() {
    let st = request(None, Some("debug"));
    let (st, action) = capsule_step(&st, CapsuleEvent::Begin);
    assert!(matches!(action, CapsuleAction::ReadGeneration));
    assert_eq!(st.intent, Intent::Debug);
    let (st, action) = capsule_step(&st, CapsuleEvent::Generation(Some(7)));
    match action {
        CapsuleAction::LookupCache { query, token_budget, intent, generation } => {
            assert_eq!(query, "how does login work");
            assert_eq!(token_budget, 8000);
            assert_eq!(intent, Intent::Debug);
            assert_eq!(generation, 7);
        }
        other => panic!("unexpected action {:?}", other),
    }
    let (st, action) = capsule_step(&st, CapsuleEvent::Cached(Some("cached text".to_string())));
    assert_eq!(st.phase, CapsulePhase::Finished);
    match action {
        CapsuleAction::Finish { result: Ok(text), store } => {
            assert_eq!(text, "cached text");
            assert!(!store);
        }
        other => panic!("unexpected action {:?}", other),
    }
}

#[test]
fn unreadable_generation_keys_the_cache_with_max() {
    let st = request(None, None);
    let (st, _) = capsule_step(&st, CapsuleEvent::Begin);
    let (_, action) = capsule_step(&st, CapsuleEvent::Generation(None));
    match action {
        CapsuleAction::LookupCache { generation, .. } => assert_eq!(generation, u64::MAX),
        other => panic!("unexpected action {:?}", other),
    }
}

#[test]
fn no_results_answer_with_fixed_message() {
    let st = request(None, None);
    let (st, _) = capsule_step(&st, CapsuleEvent::Begin);
    let (st, _) = capsule_step(&st, CapsuleEvent::Generation(Some(1)));
    let (st, action) = capsule_step(&st, CapsuleEvent::Cached(None));
    assert!(matches!(action, CapsuleAction::Search { cross_workspace: true, .. }));
    let (_, action) = capsule_step(&st, CapsuleEvent::Searched { hits: 0, external: vec![] });
    match action {
        CapsuleAction::Finish { result: Ok(text), store } => {
            assert_eq!(text, "No relevant code found for the given query.");
            assert!(!store);
        }
        other => panic!("unexpected action {:?}", other),
    }
}

#[test]
fn capsule_without_session_is_allocated_assembled_and_stored() {
    let st = request(None, Some("explore"));
    let (st, _) = capsule_step(&st, CapsuleEvent::Begin);
    let (st, _) = capsule_step(&st, CapsuleEvent::Generation(Some(3)));
    let (st, _) = capsule_step(&st, CapsuleEvent::Cached(None));
    let external = vec![(
        "other".to_string(),
        "handler".to_string(),
        "function".to_string(),
        85u32,
    )];
    let (st, action) = capsule_step(&st, CapsuleEvent::Searched { hits: 4, external });
    match action {
        CapsuleAction::Allocate { code_budget, intent } => {
            assert_eq!(code_budget, 7200);
            assert_eq!(intent, Intent::Explore);
        }
        other => panic!("unexpected action {:?}", other),
    }
    let (st, action) = capsule_step(&st, CapsuleEvent::Assembled("CAPSULE".to_string()));
    assert_eq!(st.phase, CapsulePhase::Finished);
    match action {
        CapsuleAction::Finish { result: Ok(text), store } => {
            assert_eq!(
                text,
                "CAPSULE\n---\n\n## External References\n\n### External: other\n\n- `other/handler` (function) — score: 0.85\n\n"
            );
            assert!(store);
        }
        other => panic!("unexpected action {:?}", other),
    }
}

#[test]
fn session_capsule_skips_cache_and_appends_observations() {
    let st = request(Some("s1"), None);
    let (st, _) = capsule_step(&st, CapsuleEvent::Begin);
    let (st, action) = capsule_step(&st, CapsuleEvent::Generation(Some(3)));
    assert!(matches!(action, CapsuleAction::Search { .. }));
    let (st, _) = capsule_step(&st, CapsuleEvent::Searched { hits: 2, external: vec![] });
    let (st, action) = capsule_step(&st, CapsuleEvent::Assembled("CAPSULE".to_string()));
    match action {
        CapsuleAction::SearchMemory { query, session_id } => {
            assert_eq!(query, "how does login work");
            assert_eq!(session_id, "s1");
        }
        other => panic!("unexpected action {:?}", other),
    }
    let (_, action) = capsule_step(&st, CapsuleEvent::Memory(Some("note".to_string())));
    match action {
        CapsuleAction::Finish { result: Ok(text), store } => {
            assert_eq!(text, "CAPSULE\n---\n\n# Relevant Observations\n\nnote");
            assert!(!store);
        }
        other => panic!("unexpected action {:?}", other),
    }
    let (_, action) = capsule_step(&st, CapsuleEvent::Memory(None));
    match action {
        CapsuleAction::Finish { result: Ok(text), .. } => assert_eq!(text, "CAPSULE"),
        other => panic!("unexpected action {:?}", other),
    }
}

#[test]
fn failure_while_waiting_ends_the_request() {
    let st = request(None, None);
    let (st, _) = capsule_step(&st, CapsuleEvent::Begin);
    let (st, action) = capsule_step(&st, CapsuleEvent::Failed("database is locked".to_string()));
    assert_eq!(st.phase, CapsulePhase::Finished);
    assert!(matches!(action, CapsuleAction::Finish { result: Err(_), store: false }));
}

#[test]
fn event_out_of_turn_changes_nothing() {
    let st = request(None, None);
    let (st2, action) = capsule_step(&st, CapsuleEvent::Assembled("x".to_string()));
    assert!(matches!(action, CapsuleAction::Wait));
    assert_eq!(st2.phase, CapsulePhase::Start);
}
