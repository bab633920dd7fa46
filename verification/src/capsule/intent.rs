//! Keyword-based detection of what a query is after.
use vstd::prelude::*;

use crate::text::{chars_of, contains_chars, contains_sub, lowercase, lowercase_chars};
use crate::types::Intent;

verus! {

/// Words and phrases that point at debugging.
pub open spec fn debug_keywords() -> Seq<Seq<char>> {
    seq![
        "bug"@,
        "fix"@,
        "error"@,
        "crash"@,
        "fail"@,
        "broken"@,
        "issue"@,
        "debug"@,
        "wrong"@,
        "undefined"@,
        "null"@,
        "exception"@,
        "panic"@,
        "stack trace"@,
        "backtrace"@,
        "not working"@,
    ]
}

/// Words and phrases that point at the blast radius of a change.
pub open spec fn blast_keywords() -> Seq<Seq<char>> {
    seq![
        "impact"@,
        "affect"@,
        "depend"@,
        "change"@,
        "refactor"@,
        "rename"@,
        "delete"@,
        "remove"@,
        "deprecate"@,
        "breaking"@,
        "blast radius"@,
        "who uses"@,
        "what calls"@,
        "what depends"@,
    ]
}

/// Words and phrases that point at modifying or extending code.
pub open spec fn modify_keywords() -> Seq<Seq<char>> {
    seq![
        "add"@,
        "implement"@,
        "create"@,
        "update"@,
        "modify"@,
        "extend"@,
        "feature"@,
        "enhancement"@,
        "new"@,
        "build"@,
        "write"@,
        "change"@,
    ]
}

/// How many of the keywords occur in `s`.
pub open spec fn keyword_score(s: Seq<char>, kws: Seq<Seq<char>>) -> nat
    decreases kws.len(),
{
    if kws.len() == 0 {
        0
    } else {
        keyword_score(s, kws.drop_last()) + if contains_sub(s, kws.last()) {
            1nat
        } else {
            0nat
        }
    }
}

/// The intent chosen from the three scores: `Explore` when nothing matched,
/// otherwise the highest score, ties broken Modify > Debug > BlastRadius.
pub open spec fn intent_for_scores(debug: nat, blast: nat, modify: nat) -> Intent {
    let top = if debug >= blast && debug >= modify {
        debug
    } else if blast >= modify {
        blast
    } else {
        modify
    };
    if top == 0 {
        Intent::Explore
    } else if modify == top {
        Intent::Modify
    } else if debug == top {
        Intent::Debug
    } else {
        Intent::BlastRadius
    }
}

/// The intent of a query, judged on its lowercased text.
pub open spec fn intent_of(query: Seq<char>) -> Intent {
    let lower = lowercase(query);
    intent_for_scores(
        keyword_score(lower, debug_keywords()),
        keyword_score(lower, blast_keywords()),
        keyword_score(lower, modify_keywords()),
    )
}

pub open spec fn str_views(s: Seq<&str>) -> Seq<Seq<char>> {
    s.map_values(|k: &str| k@)
}

/// How many of the keywords occur in `s`.
fn count_keywords(s: &Vec<char>, kws: &[&str]) -> (r: usize)
    ensures
        r == keyword_score(s@, str_views(kws@)),
{
    let mut count: usize = 0;
    let mut i: usize = 0;
    while i < kws.len()
        invariant
            i <= kws@.len(),
            count <= i,
            count == keyword_score(s@, str_views(kws@).take(i as int)),
        decreases kws@.len() - i,
    {
        let k = chars_of(kws[i]);
        let hit = contains_chars(s, &k);
        assert(str_views(kws@).take(i as int + 1).drop_last() =~= str_views(kws@).take(i as int));
        if hit {
            count += 1;
        }
        i += 1;
    }
    assert(str_views(kws@).take(kws@.len() as int) =~= str_views(kws@));
    count
}

/// Detects the intent behind a query by counting debug, blast-radius and
/// modification keywords in its lowercased text; with no keyword the query
/// explores, otherwise the largest count wins, ties going to Modify, then
/// Debug, then BlastRadius.
pub fn detect_intent(query: &str) -> (r: Intent)
    ensures
        r == intent_of(query@),
{
    let q = chars_of(query);
    let lower = lowercase_chars(&q);
    let debug_kws: [&str; 16] = [
        "bug",
        "fix",
        "error",
        "crash",
        "fail",
        "broken",
        "issue",
        "debug",
        "wrong",
        "undefined",
        "null",
        "exception",
        "panic",
        "stack trace",
        "backtrace",
        "not working",
    ];
    let blast_kws: [&str; 14] = [
        "impact",
        "affect",
        "depend",
        "change",
        "refactor",
        "rename",
        "delete",
        "remove",
        "deprecate",
        "breaking",
        "blast radius",
        "who uses",
        "what calls",
        "what depends",
    ];
    let modify_kws: [&str; 12] = [
        "add",
        "implement",
        "create",
        "update",
        "modify",
        "extend",
        "feature",
        "enhancement",
        "new",
        "build",
        "write",
        "change",
    ];
    assert(str_views(debug_kws@) =~= debug_keywords());
    assert(str_views(blast_kws@) =~= blast_keywords());
    assert(str_views(modify_kws@) =~= modify_keywords());
    let debug_score = count_keywords(&lower, &debug_kws);
    let blast_score = count_keywords(&lower, &blast_kws);
    let modify_score = count_keywords(&lower, &modify_kws);
    let max_score = if debug_score >= blast_score && debug_score >= modify_score {
        debug_score
    } else if blast_score >= modify_score {
        blast_score
    } else {
        modify_score
    };
    if max_score == 0 {
        Intent::Explore
    } else if modify_score == max_score {
        Intent::Modify
    } else if debug_score == max_score {
        Intent::Debug
    } else {
        Intent::BlastRadius
    }
}


/// The detected intent is the one with the most keyword hits in the
/// lowercased query: `Explore` exactly when no keyword occurs; `Modify` only
/// with a count at least the two others; `Debug` only with a count at least
/// that of blast-radius words and above that of modification words;
/// `BlastRadius` only with a count above both others.
pub proof fn lemma_intent_has_top_score(query: Seq<char>)
    ensures
        ({
            let lower = lowercase(query);
            let d = keyword_score(lower, debug_keywords());
            let b = keyword_score(lower, blast_keywords());
            let m = keyword_score(lower, modify_keywords());
            &&& (intent_of(query) == Intent::Explore <==> (d == 0 && b == 0 && m == 0))
            &&& (intent_of(query) == Intent::Modify ==> m > 0 && m >= d && m >= b)
            &&& (intent_of(query) == Intent::Debug ==> d > 0 && d >= b && d > m)
            &&& (intent_of(query) == Intent::BlastRadius ==> b > 0 && b > d && b > m)
        }),
{
}

} // verus!
