//! Regular-expression scans over source text (environment variable reads,
//! web route declarations).
use vstd::prelude::*;

use crate::indexer::extractor::opt_chars;
use crate::text::views;

verus! {

/// The groups of each successive non-overlapping match of `pattern` in
/// `text` (group 0 is the whole match; `None` for a group that did not take
/// part); `None` when the pattern does not compile.
pub uninterp spec fn regex_captures(pattern: Seq<char>, text: Seq<char>) -> Option<Seq<Seq<Option<Seq<char>>>>>;

/// Captures as plain characters.
pub open spec fn captures_view(v: Seq<Vec<Option<String>>>) -> Seq<Seq<Option<Seq<char>>>> {
    v.map_values(|m: Vec<Option<String>>| m@.map_values(|g: Option<String>| opt_chars(g)))
}

/// `regex_lite::Regex::new` and `Regex::captures_iter`: for each match, its
/// groups as text, named `regex_captures`; `None` when `Regex::new` fails.
#[verifier::external_body]
fn captures(pattern: &str, text: &str) -> (r: Option<Vec<Vec<Option<String>>>>)
    ensures
        match r {
            Some(v) => regex_captures(pattern@, text@) == Some(captures_view(v@)),
            None => regex_captures(pattern@, text@) is None,
        },
{
    let re = regex_lite::Regex::new(pattern).ok()?;
    Some(re.captures_iter(text).map(|c| c.iter().map(|g| g.map(|m| m.as_str().to_string())).collect()).collect())
}

/// The matches of a pattern (none when it does not compile).
pub open spec fn matches_of(pattern: Seq<char>, text: Seq<char>) -> Seq<Seq<Option<Seq<char>>>> {
    match regex_captures(pattern, text) {
        Some(c) => c,
        None => seq![],
    }
}

/// Group `g` of each match that has it, in order.
pub open spec fn group_texts(caps: Seq<Seq<Option<Seq<char>>>>, g: int) -> Seq<Seq<char>>
    decreases caps.len(),
{
    if caps.len() == 0 {
        seq![]
    } else {
        let r = group_texts(caps.drop_last(), g);
        let c = caps.last();
        if 0 <= g < c.len() && c[g] is Some {
            r.push(c[g]->0)
        } else {
            r
        }
    }
}

/// The matches of a pattern in a text, as [`matches_of`] says.
pub fn matches_exec(pattern: &str, text: &str) -> (r: Vec<Vec<Option<String>>>)
    ensures
        captures_view(r@) == matches_of(pattern@, text@),
{
    match captures(pattern, text) {
        Some(v) => v,
        None => {
            let v: Vec<Vec<Option<String>>> = Vec::new();
            assert(captures_view(v@) =~= seq![]);
            v
        },
    }
}

/// Appends group `g` of each match that has it.
pub fn push_group_texts(caps: &Vec<Vec<Option<String>>>, g: usize, out: &mut Vec<Vec<char>>)
    ensures
        views(final(out)@) == views(old(out)@) + group_texts(captures_view(caps@), g as int),
{
    let ghost cv = captures_view(caps@);
    let mut i: usize = 0;
    assert(views(out@) =~= views(old(out)@) + group_texts(cv.take(0), g as int));
    while i < caps.len()
        invariant
            i <= caps@.len(),
            cv == captures_view(caps@),
            views(out@) == views(old(out)@) + group_texts(cv.take(i as int), g as int),
        decreases caps.len() - i,
    {
        let c = &caps[i];
        assert(cv.take(i + 1).drop_last() =~= cv.take(i as int));
        assert(cv.take(i + 1).last() == cv[i as int]);
        assert(cv[i as int] == c@.map_values(|x: Option<String>| opt_chars(x)));
        if g < c.len() {
            if let Some(t) = &c[g] {
                assert(cv[i as int][g as int] == Some(t@));
                let ghost before = views(out@);
                out.push(crate::text::chars_of(t.as_str()));
                assert(views(out@) =~= before.push(t@));
                assert(views(out@) =~= views(old(out)@) + group_texts(cv.take(i + 1), g as int));
            } else {
                assert(views(out@) =~= views(old(out)@) + group_texts(cv.take(i + 1), g as int));
            }
        } else {
            assert(views(out@) =~= views(old(out)@) + group_texts(cv.take(i + 1), g as int));
        }
        i += 1;
    }
    assert(cv.take(caps@.len() as int) =~= cv);
}

} // verus!
