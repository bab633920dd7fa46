//! The capsule pipeline as a state machine: each step takes what the outside
//! world reported (the index generation, a cache lookup, search results, the
//! assembled capsule, session memory) and says what to do next.
use vstd::prelude::*;

use crate::capsule::budget::split_memory_budget;
use crate::capsule::generator::{external_references, external_section, intent_for_override, ExternalHit};
use crate::capsule::intent::{detect_intent, intent_of};
use crate::text::{append_chars, chars_of, string_of};
use crate::types::Intent;

verus! {

/// Where a capsule request stands.
#[derive(Debug, Clone, Copy, PartialEq, Eq, Structural)]
pub enum CapsulePhase {
    Start,
    AwaitGeneration,
    AwaitCache,
    AwaitSearch,
    AwaitAllocation,
    AwaitMemory,
    Finished,
}

/// A capsule request and what has been learned about it so far.
#[derive(Debug)]
pub struct CapsuleState {
    pub phase: CapsulePhase,
    pub query: String,
    pub token_budget: usize,
    pub session_id: Option<String>,
    pub intent_override: Option<String>,
    pub cross_workspace: bool,
    /// Share of the budget reserved for session memory, in percent.
    pub memory_budget_pct: usize,
    pub intent: Intent,
    /// The index generation the cache is keyed by.
    pub generation: u64,
    /// The rendered section of hits in other workspaces.
    pub external: String,
    /// The capsule text built so far.
    pub output: String,
}

/// What the outside world reports back.
#[derive(Debug)]
pub enum CapsuleEvent {
    /// The request is made.
    Begin,
    /// The index generation, or `None` when it could not be read.
    Generation(Option<u64>),
    /// The cached capsule for the request's key, if any.
    Cached(Option<String>),
    /// The number of search results, and those among them from other
    /// workspaces.
    Searched { hits: usize, external: Vec<ExternalHit> },
    /// The capsule assembled from the budget allocation of the local results.
    Assembled(String),
    /// The session's memory context; `None` when the memory search failed.
    Memory(Option<String>),
    /// A database, search or allocation step failed with this message.
    Failed(String),
}

/// What to do next.
#[derive(Debug)]
pub enum CapsuleAction {
    ReadGeneration,
    LookupCache { query: String, token_budget: usize, intent: Intent, generation: u64 },
    Search { query: String, intent: Intent, cross_workspace: bool },
    /// Allocate `code_budget` tokens among the local results and assemble.
    Allocate { code_budget: usize, intent: Intent },
    SearchMemory { query: String, session_id: String },
    /// The request is answered; with `store`, the answer goes into the cache
    /// under the request's key (query, budget, intent, generation).
    Finish { result: Result<String, String>, store: bool },
    /// The event does not fit the phase: nothing to do.
    Wait,
}

pub struct CapsuleStateView {
    pub phase: CapsulePhase,
    pub query: Seq<char>,
    pub token_budget: usize,
    pub session_id: Option<Seq<char>>,
    pub intent_override: Option<Seq<char>>,
    pub cross_workspace: bool,
    pub memory_budget_pct: usize,
    pub intent: Intent,
    pub generation: u64,
    pub external: Seq<char>,
    pub output: Seq<char>,
}

pub enum CapsuleEventView {
    Begin,
    Generation(Option<u64>),
    Cached(Option<Seq<char>>),
    Searched { hits: usize, external: Seq<ExternalHit> },
    Assembled(Seq<char>),
    Memory(Option<Seq<char>>),
    Failed(Seq<char>),
}

pub enum CapsuleActionView {
    ReadGeneration,
    LookupCache { query: Seq<char>, token_budget: usize, intent: Intent, generation: u64 },
    Search { query: Seq<char>, intent: Intent, cross_workspace: bool },
    Allocate { code_budget: usize, intent: Intent },
    SearchMemory { query: Seq<char>, session_id: Seq<char> },
    Finish { result: Result<Seq<char>, Seq<char>>, store: bool },
    Wait,
}

pub open spec fn opt_view(o: Option<String>) -> Option<Seq<char>> {
    match o {
        Some(s) => Some(s@),
        None => None,
    }
}

impl View for CapsuleState {
    type V = CapsuleStateView;

    open spec fn view(&self) -> CapsuleStateView {
        CapsuleStateView {
            phase: self.phase,
            query: self.query@,
            token_budget: self.token_budget,
            session_id: opt_view(self.session_id),
            intent_override: opt_view(self.intent_override),
            cross_workspace: self.cross_workspace,
            memory_budget_pct: self.memory_budget_pct,
            intent: self.intent,
            generation: self.generation,
            external: self.external@,
            output: self.output@,
        }
    }
}

impl View for CapsuleEvent {
    type V = CapsuleEventView;

    open spec fn view(&self) -> CapsuleEventView {
        match self {
            CapsuleEvent::Begin => CapsuleEventView::Begin,
            CapsuleEvent::Generation(g) => CapsuleEventView::Generation(*g),
            CapsuleEvent::Cached(c) => CapsuleEventView::Cached(opt_view(*c)),
            CapsuleEvent::Searched { hits, external } => CapsuleEventView::Searched {
                hits: *hits,
                external: external@,
            },
            CapsuleEvent::Assembled(t) => CapsuleEventView::Assembled(t@),
            CapsuleEvent::Memory(m) => CapsuleEventView::Memory(opt_view(*m)),
            CapsuleEvent::Failed(m) => CapsuleEventView::Failed(m@),
        }
    }
}

impl View for CapsuleAction {
    type V = CapsuleActionView;

    open spec fn view(&self) -> CapsuleActionView {
        match self {
            CapsuleAction::ReadGeneration => CapsuleActionView::ReadGeneration,
            CapsuleAction::LookupCache { query, token_budget, intent, generation } =>
                CapsuleActionView::LookupCache {
                query: query@,
                token_budget: *token_budget,
                intent: *intent,
                generation: *generation,
            },
            CapsuleAction::Search { query, intent, cross_workspace } => CapsuleActionView::Search {
                query: query@,
                intent: *intent,
                cross_workspace: *cross_workspace,
            },
            CapsuleAction::Allocate { code_budget, intent } => CapsuleActionView::Allocate {
                code_budget: *code_budget,
                intent: *intent,
            },
            CapsuleAction::SearchMemory { query, session_id } => CapsuleActionView::SearchMemory {
                query: query@,
                session_id: session_id@,
            },
            CapsuleAction::Finish { result, store } => CapsuleActionView::Finish {
                result: match result {
                    Ok(s) => Ok(s@),
                    Err(m) => Err(m@),
                },
                store: *store,
            },
            CapsuleAction::Wait => CapsuleActionView::Wait,
        }
    }
}

/// The message refusing an intent override that names no intent.
pub open spec fn invalid_override_message(name: Seq<char>) -> Seq<char> {
    "Invalid intent override '"@ + name + "'. Valid values: debug, blast_radius, modify, explore"@
}

pub open spec fn no_results_text() -> Seq<char> {
    "No relevant code found for the given query."@
}

pub open spec fn observations_heading() -> Seq<char> {
    "\n---\n\n# Relevant Observations\n\n"@
}

/// Whether some intent is named `name`.
pub open spec fn names_intent(name: Seq<char>) -> bool {
    exists|i: Intent| i.name_view() == name
}

/// The intent named `name` (meaningful when [`names_intent`] holds).
pub open spec fn intent_named(name: Seq<char>) -> Intent {
    choose|i: Intent| i.name_view() == name
}

pub open spec fn finished(st: CapsuleStateView, result: Result<Seq<char>, Seq<char>>, store: bool) -> (
    CapsuleStateView,
    CapsuleActionView,
) {
    (
        CapsuleStateView { phase: CapsulePhase::Finished, ..st },
        CapsuleActionView::Finish { result, store },
    )
}

pub open spec fn search_action(st: CapsuleStateView) -> CapsuleActionView {
    CapsuleActionView::Search { query: st.query, intent: st.intent, cross_workspace: st.cross_workspace }
}

/// The next state and action of a capsule request, given what was reported:
/// the intent comes from the override (a name that is no intent answers the
/// request with an error, searching and storing nothing) or from the query;
/// requests without a session first consult the cache, keyed by the index
/// generation (`u64::MAX` when it cannot be read); no search results answer
/// with a fixed message; otherwise the code budget (what the memory share
/// leaves) is allocated, the external references are appended, then the
/// session's observations if any; only requests without a session are
/// stored. A failure reported while waiting ends the request with its message.
pub open spec fn capsule_next(st: CapsuleStateView, ev: CapsuleEventView) -> (
    CapsuleStateView,
    CapsuleActionView,
) {
    match (st.phase, ev) {
        (CapsulePhase::Start, CapsuleEventView::Begin) => {
            match st.intent_override {
                Some(name) => if names_intent(name) {
                    (
                        CapsuleStateView {
                            phase: CapsulePhase::AwaitGeneration,
                            intent: intent_named(name),
                            ..st
                        },
                        CapsuleActionView::ReadGeneration,
                    )
                } else {
                    finished(st, Err(invalid_override_message(name)), false)
                },
                None => (
                    CapsuleStateView {
                        phase: CapsulePhase::AwaitGeneration,
                        intent: intent_of(st.query),
                        ..st
                    },
                    CapsuleActionView::ReadGeneration,
                ),
            }
        },
        (CapsulePhase::AwaitGeneration, CapsuleEventView::Generation(g)) => {
            let generation = match g {
                Some(n) => n,
                None => u64::MAX,
            };
            if st.session_id is None {
                (
                    CapsuleStateView { phase: CapsulePhase::AwaitCache, generation, ..st },
                    CapsuleActionView::LookupCache {
                        query: st.query,
                        token_budget: st.token_budget,
                        intent: st.intent,
                        generation,
                    },
                )
            } else {
                let s2 = CapsuleStateView { phase: CapsulePhase::AwaitSearch, generation, ..st };
                (s2, search_action(s2))
            }
        },
        (CapsulePhase::AwaitCache, CapsuleEventView::Cached(c)) => match c {
            Some(text) => finished(st, Ok(text), false),
            None => {
                let s2 = CapsuleStateView { phase: CapsulePhase::AwaitSearch, ..st };
                (s2, search_action(s2))
            },
        },
        (CapsulePhase::AwaitSearch, CapsuleEventView::Searched { hits, external }) => {
            if hits == 0 {
                finished(st, Ok(no_results_text()), false)
            } else {
                let memory = (st.token_budget * st.memory_budget_pct / 100) as int;
                (
                    CapsuleStateView {
                        phase: CapsulePhase::AwaitAllocation,
                        external: external_section(external),
                        ..st
                    },
                    CapsuleActionView::Allocate {
                        code_budget: (st.token_budget - memory) as usize,
                        intent: st.intent,
                    },
                )
            }
        },
        (CapsulePhase::AwaitAllocation, CapsuleEventView::Assembled(text)) => {
            let output = text + st.external;
            match st.session_id {
                Some(sid) => (
                    CapsuleStateView { phase: CapsulePhase::AwaitMemory, output, ..st },
                    CapsuleActionView::SearchMemory { query: st.query, session_id: sid },
                ),
                None => finished(CapsuleStateView { output, ..st }, Ok(output), true),
            }
        },
        (CapsulePhase::AwaitMemory, CapsuleEventView::Memory(m)) => {
            let output = match m {
                Some(ctx) => if ctx.len() > 0 {
                    st.output + observations_heading() + ctx
                } else {
                    st.output
                },
                None => st.output,
            };
            finished(CapsuleStateView { output, ..st }, Ok(output), false)
        },
        (phase, CapsuleEventView::Failed(msg)) => if phase != CapsulePhase::Start && phase
            != CapsulePhase::Finished {
            finished(st, Err(msg), false)
        } else {
            (st, CapsuleActionView::Wait)
        },
        _ => (st, CapsuleActionView::Wait),
    }
}

/// A request whose intent override names no intent is refused at once with
/// the message listing the valid names: nothing is searched or stored.
pub proof fn lemma_invalid_override_refused(st: CapsuleStateView, name: Seq<char>)
    requires
        st.phase == CapsulePhase::Start,
        st.intent_override == Some(name),
        !names_intent(name),
    ensures
        capsule_next(st, CapsuleEventView::Begin) == (
            CapsuleStateView { phase: CapsulePhase::Finished, ..st },
            CapsuleActionView::Finish { result: Err(invalid_override_message(name)), store: false },
        ),
{
}

/// Only requests without a session consult or fill the cache.
pub proof fn lemma_cache_only_without_session(st: CapsuleStateView, ev: CapsuleEventView)
    ensures
        capsule_next(st, ev).1 matches CapsuleActionView::LookupCache { .. } ==> st.session_id is None,
        capsule_next(st, ev).1 matches CapsuleActionView::Finish { store, .. } && store ==> st.session_id is None,
{
}

proof fn lemma_intent_named(i: Intent)
    ensures
        names_intent(i.name_view()),
        intent_named(i.name_view()) == i,
{
    reveal_strlit("debug");
    reveal_strlit("blast_radius");
    reveal_strlit("modify");
    reveal_strlit("explore");
    let j = intent_named(i.name_view());
    assert(j.name_view() == i.name_view());
}

fn concat(a: &str, b: &str) -> (r: String)
    ensures
        r@ == a@ + b@,
{
    let mut v = chars_of(a);
    let w = chars_of(b);
    append_chars(&mut v, &w);
    string_of(&v)
}

fn copy_opt(o: &Option<String>) -> (r: Option<String>)
    ensures
        opt_view(r) == opt_view(*o),
{
    match o {
        Some(s) => Some(s.clone()),
        None => None,
    }
}

impl CapsuleState {
    /// A fresh request, waiting for [`CapsuleEvent::Begin`].
    pub fn new(
        query: String,
        token_budget: usize,
        session_id: Option<String>,
        intent_override: Option<String>,
        cross_workspace: bool,
        memory_budget_pct: usize,
    ) -> (r: CapsuleState)
        ensures
            r@ == (CapsuleStateView {
                phase: CapsulePhase::Start,
                query: query@,
                token_budget,
                session_id: opt_view(session_id),
                intent_override: opt_view(intent_override),
                cross_workspace,
                memory_budget_pct,
                intent: Intent::Explore,
                generation: 0,
                external: seq![],
                output: seq![],
            }),
    {
        CapsuleState {
            phase: CapsulePhase::Start,
            query,
            token_budget,
            session_id,
            intent_override,
            cross_workspace,
            memory_budget_pct,
            intent: Intent::Explore,
            generation: 0,
            external: String::new(),
            output: String::new(),
        }
    }

    fn copy(&self) -> (r: CapsuleState)
        ensures
            r@ == self@,
    {
        CapsuleState {
            phase: self.phase,
            query: self.query.clone(),
            token_budget: self.token_budget,
            session_id: copy_opt(&self.session_id),
            intent_override: copy_opt(&self.intent_override),
            cross_workspace: self.cross_workspace,
            memory_budget_pct: self.memory_budget_pct,
            intent: self.intent,
            generation: self.generation,
            external: self.external.clone(),
            output: self.output.clone(),
        }
    }
}

/// One step of a capsule request, as [`capsule_next`] says.
pub fn capsule_step(st: &CapsuleState, ev: CapsuleEvent) -> (r: (CapsuleState, CapsuleAction))
    requires
        st.memory_budget_pct <= 100,
        st.token_budget * st.memory_budget_pct <= usize::MAX,
    ensures
        r.0@ == capsule_next(st@, ev@).0,
        r.1@ == capsule_next(st@, ev@).1,
{
    let mut s = st.copy();
    match (st.phase, ev) {
        (CapsulePhase::Start, CapsuleEvent::Begin) => {
            match &st.intent_override {
                Some(name) => match intent_for_override(name.as_str()) {
                    Ok(i) => {
                        proof {
                            lemma_intent_named(i);
                        }
                        s.phase = CapsulePhase::AwaitGeneration;
                        s.intent = i;
                        (s, CapsuleAction::ReadGeneration)
                    },
                    Err(msg) => {
                        s.phase = CapsulePhase::Finished;
                        (s, CapsuleAction::Finish { result: Err(msg), store: false })
                    },
                },
                None => {
                    s.phase = CapsulePhase::AwaitGeneration;
                    s.intent = detect_intent(st.query.as_str());
                    (s, CapsuleAction::ReadGeneration)
                },
            }
        },
        (CapsulePhase::AwaitGeneration, CapsuleEvent::Generation(g)) => {
            let generation = match g {
                Some(n) => n,
                None => u64::MAX,
            };
            s.generation = generation;
            if st.session_id.is_none() {
                s.phase = CapsulePhase::AwaitCache;
                let a = CapsuleAction::LookupCache {
                    query: st.query.clone(),
                    token_budget: st.token_budget,
                    intent: st.intent,
                    generation,
                };
                (s, a)
            } else {
                s.phase = CapsulePhase::AwaitSearch;
                let a = CapsuleAction::Search {
                    query: st.query.clone(),
                    intent: st.intent,
                    cross_workspace: st.cross_workspace,
                };
                (s, a)
            }
        },
        (CapsulePhase::AwaitCache, CapsuleEvent::Cached(c)) => match c {
            Some(text) => {
                s.phase = CapsulePhase::Finished;
                (s, CapsuleAction::Finish { result: Ok(text), store: false })
            },
            None => {
                s.phase = CapsulePhase::AwaitSearch;
                let a = CapsuleAction::Search {
                    query: st.query.clone(),
                    intent: st.intent,
                    cross_workspace: st.cross_workspace,
                };
                (s, a)
            },
        },
        (CapsulePhase::AwaitSearch, CapsuleEvent::Searched { hits, external }) => {
            if hits == 0 {
                s.phase = CapsulePhase::Finished;
                let text = "No relevant code found for the given query.".to_owned();
                (s, CapsuleAction::Finish { result: Ok(text), store: false })
            } else {
                let (_memory, code) = split_memory_budget(st.token_budget, st.memory_budget_pct);
                s.phase = CapsulePhase::AwaitAllocation;
                s.external = external_references(external.as_slice());
                (s, CapsuleAction::Allocate { code_budget: code, intent: st.intent })
            }
        },
        (CapsulePhase::AwaitAllocation, CapsuleEvent::Assembled(text)) => {
            let output = concat(text.as_str(), st.external.as_str());
            match &st.session_id {
                Some(sid) => {
                    s.phase = CapsulePhase::AwaitMemory;
                    s.output = output;
                    let a = CapsuleAction::SearchMemory { query: st.query.clone(), session_id: sid.clone() };
                    (s, a)
                },
                None => {
                    s.phase = CapsulePhase::Finished;
                    s.output = output.clone();
                    (s, CapsuleAction::Finish { result: Ok(output), store: true })
                },
            }
        },
        (CapsulePhase::AwaitMemory, CapsuleEvent::Memory(m)) => {
            let output = match m {
                Some(ctx) => if chars_of(ctx.as_str()).len() > 0 {
                    let head = concat(st.output.as_str(), "\n---\n\n# Relevant Observations\n\n");
                    concat(head.as_str(), ctx.as_str())
                } else {
                    st.output.clone()
                },
                None => st.output.clone(),
            };
            s.phase = CapsulePhase::Finished;
            s.output = output.clone();
            (s, CapsuleAction::Finish { result: Ok(output), store: false })
        },
        (phase, CapsuleEvent::Failed(msg)) => {
            if phase != CapsulePhase::Start && phase != CapsulePhase::Finished {
                s.phase = CapsulePhase::Finished;
                (s, CapsuleAction::Finish { result: Err(msg), store: false })
            } else {
                (s, CapsuleAction::Wait)
            }
        },
        (_, _) => (s, CapsuleAction::Wait),
    }
}

} // verus!
