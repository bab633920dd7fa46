//! Turning natural-language and code queries into full-text search queries and
//! search terms.
use vstd::prelude::*;

use crate::capsule::intent::str_views;
use crate::db::tokenizer::{is_ident_sep, query_chars};
use crate::text::{
    append_chars, camel_parts, camel_split, char_is_alphanumeric, char_is_whitespace, chars_of,
    contains_sub, dedup, eq_str, flatten, is_alnum, join, lemma_push_contains, join_chars, lemma_runs_nonempty, lowercase, lowercase_chars,
    marks, runs, split_runs, split_words, string_of, string_views, utf8_longer_than_one, views,
    words,
};

verus! {

/// Common English stop words.
pub open spec fn stop_words() -> Seq<Seq<char>> {
    seq![
        "the"@, "a"@, "an"@, "is"@, "are"@, "was"@, "were"@, "be"@, "been"@, "being"@, "have"@,
        "has"@, "had"@, "do"@, "does"@, "did"@, "will"@, "would"@, "could"@, "should"@, "may"@,
        "might"@, "can"@, "shall"@, "to"@, "of"@, "in"@, "for"@, "on"@, "with"@, "at"@, "by"@,
        "from"@, "it"@, "this"@, "that"@, "these"@, "those"@, "i"@, "me"@, "my"@, "we"@, "our"@,
        "you"@, "your"@, "he"@, "she"@, "they"@, "them"@, "what"@, "which"@, "who"@, "when"@,
        "where"@, "why"@, "how"@, "not"@, "no"@, "nor"@, "and"@, "or"@, "but"@, "if"@, "then"@,
    ]
}

/// Code-specific words that carry no search signal.
pub open spec fn code_stop_words() -> Seq<Seq<char>> {
    seq![
        "implementation"@, "function"@, "method"@, "class"@, "struct"@, "code"@, "file"@,
        "module"@, "type"@, "interface"@, "trait"@, "find"@, "show"@, "get"@, "search"@,
        "look"@, "where"@, "works"@, "work"@, "use"@, "used"@, "using"@, "codebase"@,
        "project"@, "repository"@,
    ]
}

/// The alphanumeric characters of `s`, in order.
pub open spec fn keep_alnum(s: Seq<char>) -> Seq<char>
    decreases s.len(),
{
    if s.len() == 0 {
        seq![]
    } else if is_alnum(s.last()) {
        keep_alnum(s.drop_last()).push(s.last())
    } else {
        keep_alnum(s.drop_last())
    }
}

/// The camel-case parts of a cleaned segment; the segment itself when it is
/// a single character or has no boundary.
pub open spec fn fts_camel(s: Seq<char>) -> Seq<Seq<char>> {
    if s.len() <= 1 {
        seq![s]
    } else if camel_split(s).len() > 1 {
        camel_split(s)
    } else {
        seq![s]
    }
}

/// A lowercased part counts as a search term when it is longer than one
/// UTF-8 byte and is no stop word of either list.
pub open spec fn is_term(lower: Seq<char>) -> bool {
    utf8_longer_than_one(lower) && !stop_words().contains(lower) && !code_stop_words().contains(
        lower,
    )
}

/// The lowercased parts that are terms, in order.
pub open spec fn part_terms(parts: Seq<Seq<char>>) -> Seq<Seq<char>>
    decreases parts.len(),
{
    if parts.len() == 0 {
        seq![]
    } else {
        let l = lowercase(parts.last());
        if is_term(l) {
            part_terms(parts.drop_last()).push(l)
        } else {
            part_terms(parts.drop_last())
        }
    }
}

/// The terms of each segment, after stripping it to alphanumerics and cutting
/// it at camel-case boundaries.
pub open spec fn segment_terms(segs: Seq<Seq<char>>) -> Seq<Seq<char>>
    decreases segs.len(),
{
    if segs.len() == 0 {
        seq![]
    } else {
        let c = keep_alnum(segs.last());
        segment_terms(segs.drop_last()) + if c.len() == 0 {
            Seq::<Seq<char>>::empty()
        } else {
            part_terms(fts_camel(c))
        }
    }
}

/// The candidate terms of one query word, repetitions included.
pub open spec fn word_candidates(w: Seq<char>) -> Seq<Seq<char>> {
    segment_terms(runs(w, marks(w, |c: char| is_ident_sep(c))))
}

/// The group one word contributes to the OR query: nothing, its single term,
/// or its distinct terms in parentheses.
pub open spec fn word_groups(ws: Seq<Seq<char>>) -> Seq<Seq<char>>
    decreases ws.len(),
{
    if ws.len() == 0 {
        seq![]
    } else {
        let st = dedup(word_candidates(ws.last()));
        let rest = word_groups(ws.drop_last());
        if st.len() == 0 {
            rest
        } else if st.len() == 1 {
            rest.push(st[0])
        } else {
            rest.push(seq!['('] + join(st, seq![' ']) + seq![')'])
        }
    }
}

/// The full-text query for `q`: word groups joined by ` OR `, or, when no word
/// yields a term, `q` stripped to alphanumerics, whitespace and underscores.
pub open spec fn fts_or_query(q: Seq<char>) -> Seq<char> {
    let groups = word_groups(words(q));
    if groups.len() == 0 {
        query_chars(q)
    } else {
        join(groups, seq![' ', 'O', 'R', ' '])
    }
}

/// The candidate terms of all words, in order.
pub open spec fn all_candidates(ws: Seq<Seq<char>>) -> Seq<Seq<char>>
    decreases ws.len(),
{
    if ws.len() == 0 {
        seq![]
    } else {
        all_candidates(ws.drop_last()) + word_candidates(ws.last())
    }
}

/// The full-text query for `q` as one implicit AND: its distinct terms joined
/// by spaces, or `q` stripped as in [`fts_or_query`] when there is none.
pub open spec fn fts_and_query(q: Seq<char>) -> Seq<char> {
    let terms = dedup(all_candidates(words(q)));
    if terms.len() == 0 {
        query_chars(q)
    } else {
        join(terms, seq![' '])
    }
}

/// The search terms of a natural-language query: each word longer than one
/// UTF-8 byte whose lowercase form is no stop word, lowercased.
pub open spec fn search_terms(ws: Seq<Seq<char>>) -> Seq<Seq<char>>
    decreases ws.len(),
{
    if ws.len() == 0 {
        seq![]
    } else {
        let w = ws.last();
        let l = lowercase(w);
        if !stop_words().contains(l) && !code_stop_words().contains(l) && utf8_longer_than_one(w) {
            search_terms(ws.drop_last()).push(l)
        } else {
            search_terms(ws.drop_last())
        }
    }
}

/// The lowercased camel-case parts, longer than one UTF-8 byte, of each segment.
pub open spec fn segment_words(segs: Seq<Seq<char>>) -> Seq<Seq<char>>
    decreases segs.len(),
{
    if segs.len() == 0 {
        seq![]
    } else {
        segment_words(segs.drop_last()) + long_lowered(camel_split(segs.last()))
    }
}

/// The lowercased parts that are longer than one UTF-8 byte.
pub open spec fn long_lowered(parts: Seq<Seq<char>>) -> Seq<Seq<char>>
    decreases parts.len(),
{
    if parts.len() == 0 {
        seq![]
    } else {
        let l = lowercase(parts.last());
        if utf8_longer_than_one(l) {
            long_lowered(parts.drop_last()).push(l)
        } else {
            long_lowered(parts.drop_last())
        }
    }
}

/// The word tokens of an identifier or signature: its alphanumeric runs cut
/// at camel-case boundaries, lowercased, single-byte ones dropped.
pub open spec fn identifier_words(s: Seq<char>) -> Seq<Seq<char>> {
    segment_words(runs(s, marks(s, |c: char| !is_alnum(c))))
}

// ---------------------------------------------------------------------------

/// Whether `w` is one of the listed words.
pub fn in_word_list(w: &Vec<char>, list: &[&str]) -> (r: bool)
    ensures
        r == str_views(list@).contains(w@),
{
    let mut i: usize = 0;
    while i < list.len()
        invariant
            i <= list@.len(),
            forall|j: int| 0 <= j < i ==> str_views(list@)[j] != w@,
        decreases list@.len() - i,
    {
        if eq_str(w, list[i]) {
            assert(str_views(list@)[i as int] == w@);
            return true;
        }
        i += 1;
    }
    false
}

/// Whether a lowercased part is a search term.
fn is_search_term(l: &Vec<char>) -> (r: bool)
    ensures
        r == is_term(l@),
{
    let stop: [&str; 64] = [
        "the", "a", "an", "is", "are", "was", "were", "be", "been", "being", "have", "has", "had",
        "do", "does", "did", "will", "would", "could", "should", "may", "might", "can", "shall",
        "to", "of", "in", "for", "on", "with", "at", "by", "from", "it", "this", "that", "these",
        "those", "i", "me", "my", "we", "our", "you", "your", "he", "she", "they", "them", "what",
        "which", "who", "when", "where", "why", "how", "not", "no", "nor", "and", "or", "but",
        "if", "then",
    ];
    let code_stop: [&str; 25] = [
        "implementation", "function", "method", "class", "struct", "code", "file", "module",
        "type", "interface", "trait", "find", "show", "get", "search", "look", "where", "works",
        "work", "use", "used", "using", "codebase", "project", "repository",
    ];
    assert(str_views(stop@) =~= stop_words());
    assert(str_views(code_stop@) =~= code_stop_words());
    let long = l.len() > 1 || (l.len() == 1 && (l[0] as u32) >= 128);
    long && !in_word_list(l, &stop) && !in_word_list(l, &code_stop)
}

/// The alphanumeric characters of `s`.
fn strip_to_alnum(s: &Vec<char>) -> (r: Vec<char>)
    ensures
        r@ == keep_alnum(s@),
{
    let mut r: Vec<char> = Vec::new();
    let mut i: usize = 0;
    while i < s.len()
        invariant
            i <= s.len(),
            r@ == keep_alnum(s@.take(i as int)),
        decreases s.len() - i,
    {
        assert(s@.take(i as int + 1).drop_last() =~= s@.take(i as int));
        if char_is_alphanumeric(s[i]) {
            r.push(s[i]);
        }
        i += 1;
    }
    assert(s@.take(s.len() as int) =~= s@);
    r
}

/// Splits a camelCase/PascalCase string into parts for a full-text query; a
/// string without boundaries (or of at most one character) stays whole.
pub fn split_camel_for_fts(s: &Vec<char>) -> (r: Vec<Vec<char>>)
    ensures
        views(r@) == fts_camel(s@),
{
    if s.len() <= 1 {
        let mut r: Vec<Vec<char>> = Vec::new();
        let c = crate::text::copy_chars(s);
        r.push(c);
        assert(views(r@) =~= seq![s@]);
        return r;
    }
    let parts = camel_parts(s);
    if parts.len() > 1 {
        parts
    } else {
        let mut r: Vec<Vec<char>> = Vec::new();
        let c = crate::text::copy_chars(s);
        r.push(c);
        assert(views(r@) =~= seq![s@]);
        r
    }
}

/// Appends `t` unless an equal term is already present.
fn push_unique(terms: &mut Vec<Vec<char>>, t: Vec<char>)
    ensures
        views(final(terms)@) == if views(old(terms)@).contains(t@) {
            views(old(terms)@)
        } else {
            views(old(terms)@).push(t@)
        },
{
    let mut i: usize = 0;
    while i < terms.len()
        invariant
            i <= terms.len(),
            terms@ == old(terms)@,
            forall|j: int| 0 <= j < i ==> views(terms@)[j] != t@,
        decreases terms.len() - i,
    {
        if crate::text::eq_chars(&terms[i], &t) {
            assert(views(terms@)[i as int] == t@);
            return;
        }
        i += 1;
    }
    let ghost before = terms@;
    terms.push(t);
    assert(views(terms@) =~= views(before).push(t@));
}

/// The candidate terms of one word, repetitions included.
pub fn word_candidate_terms(w: &Vec<char>) -> (r: Vec<Vec<char>>)
    ensures
        views(r@) == word_candidates(w@),
{
    let mut m: Vec<bool> = Vec::new();
    let mut i: usize = 0;
    while i < w.len()
        invariant
            i <= w.len(),
            m@ == marks(w@, |c: char| is_ident_sep(c)).take(i as int),
        decreases w.len() - i,
    {
        let c = w[i];
        m.push(c == ':' || c == '.' || c == '-' || c == '/' || c == '_');
        assert(m@ =~= marks(w@, |c: char| is_ident_sep(c)).take(i as int + 1));
        i += 1;
    }
    assert(m@ =~= marks(w@, |c: char| is_ident_sep(c)));
    let segs = split_runs(w, &m);
    let mut out: Vec<Vec<char>> = Vec::new();
    let mut s: usize = 0;
    while s < segs.len()
        invariant
            s <= segs.len(),
            views(out@) == segment_terms(views(segs@).take(s as int)),
        decreases segs.len() - s,
    {
        assert(views(segs@).take(s as int + 1).drop_last() =~= views(segs@).take(s as int));
        assert(views(segs@).take(s as int + 1).last() == segs@[s as int]@);
        let cleaned = strip_to_alnum(&segs[s]);
        if cleaned.len() > 0 {
            let parts = split_camel_for_fts(&cleaned);
            let ghost base = views(out@);
            let mut k: usize = 0;
            while k < parts.len()
                invariant
                    k <= parts.len(),
                    views(out@) == base + part_terms(views(parts@).take(k as int)),
                decreases parts.len() - k,
            {
                let l = lowercase_chars(&parts[k]);
                assert(views(parts@).take(k as int + 1).drop_last() =~= views(parts@).take(k as int));
                assert(views(parts@).take(k as int + 1).last() == parts@[k as int]@);
                if is_search_term(&l) {
                    let ghost o = out@;
                    out.push(l);
                    assert(views(out@) =~= views(o).push(l@));
                    assert(base + part_terms(views(parts@).take(k as int + 1)) =~= (base + part_terms(views(parts@).take(k as int))).push(l@));
                }
                k += 1;
            }
            assert(views(parts@).take(parts.len() as int) =~= views(parts@));
        } else {
            assert(segment_terms(views(segs@).take(s as int + 1)) =~= segment_terms(views(segs@).take(s as int)));
        }
        s += 1;
    }
    assert(views(segs@).take(segs.len() as int) =~= views(segs@));
    out
}

/// Converts a natural-language or code query into a full-text query: each word
/// is cut at `-`, `/`, `:`, `.`, `_` and camel-case boundaries into lowercase
/// terms (stop words and one-byte parts dropped); a word with one term
/// contributes it, a word with several contributes them in parentheses as an
/// implicit AND, and the word groups are joined with ` OR `. Without any term
/// the query is returned stripped of full-text operators.
pub fn sanitize_fts_query(query: &str) -> (r: String)
    ensures
        r@ == fts_or_query(query@),
{
    let q = chars_of(query);
    let ws = split_words(&q);
    let mut groups: Vec<Vec<char>> = Vec::new();
    let mut i: usize = 0;
    while i < ws.len()
        invariant
            i <= ws.len(),
            views(groups@) == word_groups(views(ws@).take(i as int)),
        decreases ws.len() - i,
    {
        assert(views(ws@).take(i as int + 1).drop_last() =~= views(ws@).take(i as int));
        assert(views(ws@).take(i as int + 1).last() == ws@[i as int]@);
        let cands = word_candidate_terms(&ws[i]);
        let mut sub: Vec<Vec<char>> = Vec::new();
        let mut k: usize = 0;
        while k < cands.len()
            invariant
                k <= cands.len(),
                views(sub@) == dedup(views(cands@).take(k as int)),
            decreases cands.len() - k,
        {
            assert(views(cands@).take(k as int + 1).drop_last() =~= views(cands@).take(k as int));
            let c = crate::text::copy_chars(&cands[k]);
            push_unique(&mut sub, c);
            k += 1;
        }
        assert(views(cands@).take(cands.len() as int) =~= views(cands@));
        if sub.len() == 1 {
            let g = crate::text::copy_chars(&sub[0]);
            let ghost o = groups@;
            groups.push(g);
            assert(views(groups@) =~= views(o).push(views(sub@)[0]));
        } else if sub.len() > 1 {
            let mut sep: Vec<char> = Vec::new();
            sep.push(' ');
            let inner = join_chars(&sub, &sep);
            let mut g: Vec<char> = Vec::new();
            g.push('(');
            append_chars(&mut g, &inner);
            g.push(')');
            assert(g@ =~= seq!['('] + inner@ + seq![')']);
            let ghost o = groups@;
            groups.push(g);
            assert(views(groups@) =~= views(o).push(g@));
        }
        i += 1;
    }
    assert(views(ws@).take(ws.len() as int) =~= views(ws@));
    if groups.len() == 0 {
        let mut r: Vec<char> = Vec::new();
        let mut j: usize = 0;
        while j < q.len()
            invariant
                j <= q.len(),
                r@ == query_chars(q@.take(j as int)),
            decreases q.len() - j,
        {
            let c = q[j];
            assert(q@.take(j as int + 1).drop_last() =~= q@.take(j as int));
            if char_is_alphanumeric(c) || char_is_whitespace(c) || c == '_' {
                r.push(c);
            }
            j += 1;
        }
        assert(q@.take(q.len() as int) =~= q@);
        return string_of(&r);
    }
    let mut or_sep: Vec<char> = Vec::new();
    or_sep.push(' ');
    or_sep.push('O');
    or_sep.push('R');
    or_sep.push(' ');
    assert(or_sep@ =~= seq![' ', 'O', 'R', ' ']);
    let j = join_chars(&groups, &or_sep);
    string_of(&j)
}

/// Like [`sanitize_fts_query`] but with all distinct terms of all words in a
/// single implicit AND (space-separated, no `OR`, no parentheses).
pub fn sanitize_fts_query_and(query: &str) -> (r: String)
    ensures
        r@ == fts_and_query(query@),
{
    let q = chars_of(query);
    let ws = split_words(&q);
    let mut terms: Vec<Vec<char>> = Vec::new();
    let mut i: usize = 0;
    while i < ws.len()
        invariant
            i <= ws.len(),
            views(terms@) == dedup(all_candidates(views(ws@).take(i as int))),
        decreases ws.len() - i,
    {
        assert(views(ws@).take(i as int + 1).drop_last() =~= views(ws@).take(i as int));
        assert(views(ws@).take(i as int + 1).last() == ws@[i as int]@);
        let ghost prefix = all_candidates(views(ws@).take(i as int));
        let cands = word_candidate_terms(&ws[i]);
        let mut k: usize = 0;
        while k < cands.len()
            invariant
                k <= cands.len(),
                views(terms@) == dedup(prefix + views(cands@).take(k as int)),
            decreases cands.len() - k,
        {
            assert((prefix + views(cands@).take(k as int + 1)).drop_last() =~= prefix + views(
                cands@,
            ).take(k as int));
            assert((prefix + views(cands@).take(k as int + 1)).last() == cands@[k as int]@);
            let c = crate::text::copy_chars(&cands[k]);
            push_unique(&mut terms, c);
            k += 1;
        }
        assert(prefix + views(cands@).take(cands.len() as int) =~= all_candidates(views(ws@).take(i as int + 1)));
        i += 1;
    }
    assert(views(ws@).take(ws.len() as int) =~= views(ws@));
    if terms.len() == 0 {
        let mut r: Vec<char> = Vec::new();
        let mut j: usize = 0;
        while j < q.len()
            invariant
                j <= q.len(),
                r@ == query_chars(q@.take(j as int)),
            decreases q.len() - j,
        {
            let c = q[j];
            assert(q@.take(j as int + 1).drop_last() =~= q@.take(j as int));
            if char_is_alphanumeric(c) || char_is_whitespace(c) || c == '_' {
                r.push(c);
            }
            j += 1;
        }
        assert(q@.take(q.len() as int) =~= q@);
        return string_of(&r);
    }
    let mut sep: Vec<char> = Vec::new();
    sep.push(' ');
    let j = join_chars(&terms, &sep);
    string_of(&j)
}

/// Extracts search terms from a natural-language query: the whitespace
/// separated words longer than one UTF-8 byte whose lowercase form is no stop
/// word, lowercased.
pub fn extract_search_terms(query: &str) -> (r: Vec<String>)
    ensures
        string_views(r@) == search_terms(words(query@)),
{
    let stop: [&str; 64] = [
        "the", "a", "an", "is", "are", "was", "were", "be", "been", "being", "have", "has", "had",
        "do", "does", "did", "will", "would", "could", "should", "may", "might", "can", "shall",
        "to", "of", "in", "for", "on", "with", "at", "by", "from", "it", "this", "that", "these",
        "those", "i", "me", "my", "we", "our", "you", "your", "he", "she", "they", "them", "what",
        "which", "who", "when", "where", "why", "how", "not", "no", "nor", "and", "or", "but",
        "if", "then",
    ];
    let code_stop: [&str; 25] = [
        "implementation", "function", "method", "class", "struct", "code", "file", "module",
        "type", "interface", "trait", "find", "show", "get", "search", "look", "where", "works",
        "work", "use", "used", "using", "codebase", "project", "repository",
    ];
    assert(str_views(stop@) =~= stop_words());
    assert(str_views(code_stop@) =~= code_stop_words());
    let q = chars_of(query);
    let ws = split_words(&q);
    let mut out: Vec<String> = Vec::new();
    let mut i: usize = 0;
    while i < ws.len()
        invariant
            i <= ws.len(),
            str_views(stop@) == stop_words(),
            str_views(code_stop@) == code_stop_words(),
            string_views(out@) == search_terms(views(ws@).take(i as int)),
        decreases ws.len() - i,
    {
        assert(views(ws@).take(i as int + 1).drop_last() =~= views(ws@).take(i as int));
        assert(views(ws@).take(i as int + 1).last() == ws@[i as int]@);
        let w = &ws[i];
        let l = lowercase_chars(w);
        let long = w.len() > 1 || (w.len() == 1 && (w[0] as u32) >= 128);
        if !in_word_list(&l, &stop) && !in_word_list(&l, &code_stop) && long {
            let s = string_of(&l);
            let ghost o = out@;
            out.push(s);
            assert(string_views(out@) =~= string_views(o).push(l@));
        }
        i += 1;
    }
    assert(views(ws@).take(ws.len() as int) =~= views(ws@));
    out
}

/// Splits an identifier or signature into lowercase word tokens: alphanumeric
/// runs, cut at camel-case boundaries, lowercased, one-byte tokens dropped.
pub fn tokenize_identifier(s: &str) -> (r: Vec<String>)
    ensures
        string_views(r@) == identifier_words(s@),
{
    let v = chars_of(s);
    let mut m: Vec<bool> = Vec::new();
    let mut i: usize = 0;
    while i < v.len()
        invariant
            i <= v.len(),
            m@ == marks(v@, |c: char| !is_alnum(c)).take(i as int),
        decreases v.len() - i,
    {
        let a = char_is_alphanumeric(v[i]);
        m.push(!a);
        assert(m@ =~= marks(v@, |c: char| !is_alnum(c)).take(i as int + 1));
        i += 1;
    }
    assert(m@ =~= marks(v@, |c: char| !is_alnum(c)));
    let segs = split_runs(&v, &m);
    proof {
        lemma_runs_nonempty(v@, m@);
    }
    let mut out: Vec<String> = Vec::new();
    let mut s_i: usize = 0;
    while s_i < segs.len()
        invariant
            s_i <= segs.len(),
            views(segs@) == runs(v@, m@),
            forall|k: int| 0 <= k < runs(v@, m@).len() ==> (#[trigger] runs(v@, m@)[k]).len() > 0,
            string_views(out@) == segment_words(views(segs@).take(s_i as int)),
        decreases segs.len() - s_i,
    {
        assert(views(segs@).take(s_i as int + 1).drop_last() =~= views(segs@).take(s_i as int));
        assert(views(segs@).take(s_i as int + 1).last() == segs@[s_i as int]@);
        assert(views(segs@)[s_i as int].len() > 0);
        let parts = camel_parts(&segs[s_i]);
        let ghost base = string_views(out@);
        let mut k: usize = 0;
        while k < parts.len()
            invariant
                k <= parts.len(),
                string_views(out@) == base + long_lowered(views(parts@).take(k as int)),
            decreases parts.len() - k,
        {
            assert(views(parts@).take(k as int + 1).drop_last() =~= views(parts@).take(k as int));
            assert(views(parts@).take(k as int + 1).last() == parts@[k as int]@);
            let l = lowercase_chars(&parts[k]);
            if l.len() > 1 || (l.len() == 1 && (l[0] as u32) >= 128) {
                let st = string_of(&l);
                let ghost o = out@;
                out.push(st);
                assert(string_views(out@) =~= string_views(o).push(l@));
                assert(base + long_lowered(views(parts@).take(k as int + 1)) =~= (base + long_lowered(views(parts@).take(k as int))).push(l@));
            }
            k += 1;
        }
        assert(views(parts@).take(parts.len() as int) =~= views(parts@));
        s_i += 1;
    }
    assert(views(segs@).take(segs.len() as int) =~= views(segs@));
    out
}

// ---------------------------------------------------------------------------
// The AND query and the OR query
// ---------------------------------------------------------------------------

/// The distinct terms each word contributes to the OR query, per word.
pub open spec fn or_term_groups(ws: Seq<Seq<char>>) -> Seq<Seq<Seq<char>>> {
    ws.map_values(|w: Seq<char>| dedup(word_candidates(w)))
}

/// `d` extended by the elements of `b` it does not hold yet, in order.
pub open spec fn dedup_onto<T>(d: Seq<T>, b: Seq<T>) -> Seq<T>
    decreases b.len(),
{
    if b.len() == 0 {
        d
    } else {
        let e = dedup_onto(d, b.drop_last());
        if e.contains(b.last()) {
            e
        } else {
            e.push(b.last())
        }
    }
}

proof fn lemma_dedup_append<T>(x: Seq<T>, b: Seq<T>)
    ensures
        dedup(x + b) == dedup_onto(dedup(x), b),
    decreases b.len(),
{
    if b.len() == 0 {
        assert(x + b =~= x);
    } else {
        assert((x + b).drop_last() =~= x + b.drop_last());
        assert((x + b).last() == b.last());
        lemma_dedup_append(x, b.drop_last());
    }
}

proof fn lemma_dedup_onto_contains<T>(d: Seq<T>, b: Seq<T>, t: T)
    ensures
        dedup_onto(d, b).contains(t) <==> (d.contains(t) || b.contains(t)),
    decreases b.len(),
{
    if b.len() > 0 {
        lemma_dedup_onto_contains(d, b.drop_last(), t);
        lemma_push_contains(dedup_onto(d, b.drop_last()), b.last(), t);
        assert(b =~= b.drop_last().push(b.last()));
        lemma_push_contains(b.drop_last(), b.last(), t);
        lemma_dedup_onto_contains(d, b.drop_last(), b.last());
    }
}

proof fn lemma_dedup_onto_dedup<T>(d: Seq<T>, b: Seq<T>)
    ensures
        dedup_onto(d, b) == dedup_onto(d, dedup(b)),
    decreases b.len(),
{
    if b.len() > 0 {
        let b1 = b.drop_last();
        let x = b.last();
        lemma_dedup_onto_dedup(d, b1);
        crate::text::lemma_dedup_contains(b1, x);
        let db1 = dedup(b1);
        if db1.contains(x) {
            lemma_dedup_onto_contains(d, b1, x);
        } else {
            assert(db1.push(x).drop_last() =~= db1);
        }
    }
}

proof fn lemma_and_or_terms(ws: Seq<Seq<char>>)
    ensures
        dedup(all_candidates(ws)) == dedup(flatten(or_term_groups(ws))),
        (all_candidates(ws).len() == 0) <==> (word_groups(ws).len() == 0),
    decreases ws.len(),
{
    if ws.len() > 0 {
        let w0 = ws.drop_last();
        let c = word_candidates(ws.last());
        lemma_and_or_terms(w0);
        assert(or_term_groups(ws).drop_last() =~= or_term_groups(w0));
        assert(or_term_groups(ws).last() == dedup(c));
        let a0 = all_candidates(w0);
        let f0 = flatten(or_term_groups(w0));
        lemma_dedup_append(a0, c);
        lemma_dedup_append(f0, c);
        lemma_dedup_append(f0, dedup(c));
        lemma_dedup_onto_dedup(dedup(f0), c);
        if c.len() > 0 {
            assert(dedup(c).len() > 0) by {
                crate::text::lemma_dedup_contains(c, c[0]);
                assert(c.contains(c[0]));
            }
        } else {
            assert(dedup(c) =~= Seq::<Seq<char>>::empty());
        }
        assert(all_candidates(ws).len() == a0.len() + c.len());
    }
}

/// The AND query is made of the OR query's terms: the distinct terms of all
/// word groups, in order of first appearance, and it falls back to the
/// stripped query exactly when the OR query does.
pub proof fn lemma_and_query_terms_are_or_query_terms(q: Seq<char>)
    ensures
        dedup(all_candidates(words(q))) == dedup(flatten(or_term_groups(words(q)))),
        fts_and_query(q) == (if word_groups(words(q)).len() == 0 {
            query_chars(q)
        } else {
            join(dedup(flatten(or_term_groups(words(q)))), seq![' '])
        }),
        word_groups(words(q)).len() == 0 ==> fts_or_query(q) == query_chars(q),
{
    lemma_and_or_terms(words(q));
    let a = all_candidates(words(q));
    if a.len() > 0 {
        crate::text::lemma_dedup_contains(a, a[0]);
        assert(a.contains(a[0]));
    } else {
        assert(dedup(a) =~= Seq::<Seq<char>>::empty());
    }
}

// ---------------------------------------------------------------------------
// Counts behind the relevance scores
// ---------------------------------------------------------------------------

/// The words of a lowercased query that count when scoring a result: longer
/// than one UTF-8 byte and no stop word (nor, with `drop_code_words`, a code
/// stop word).
pub open spec fn scoring_terms(ws: Seq<Seq<char>>, drop_code_words: bool) -> Seq<Seq<char>>
    decreases ws.len(),
{
    if ws.len() == 0 {
        seq![]
    } else {
        let w = ws.last();
        let rest = scoring_terms(ws.drop_last(), drop_code_words);
        if utf8_longer_than_one(w) && !stop_words().contains(w) && !(drop_code_words && code_stop_words().contains(
            w,
        )) {
            rest.push(w)
        } else {
            rest
        }
    }
}

/// Two for each term among the name's words, one for each term among the
/// signature's words.
pub open spec fn term_matches(terms: Seq<Seq<char>>, name_words: Seq<Seq<char>>, sig_words: Seq<Seq<char>>) -> nat
    decreases terms.len(),
{
    if terms.len() == 0 {
        0
    } else {
        let t = terms.last();
        term_matches(terms.drop_last(), name_words, sig_words) + (if name_words.contains(t) {
            2nat
        } else {
            0nat
        }) + (if sig_words.contains(t) {
            1nat
        } else {
            0nat
        })
    }
}

/// The terms found in a lowercased path, as one of its words or anywhere in it.
pub open spec fn path_matches(terms: Seq<Seq<char>>, path: Seq<char>, path_words: Seq<Seq<char>>) -> nat
    decreases terms.len(),
{
    if terms.len() == 0 {
        0
    } else {
        let t = terms.last();
        path_matches(terms.drop_last(), path, path_words) + if path_words.contains(t) || contains_sub(path, t) {
            1nat
        } else {
            0nat
        }
    }
}

fn has_word(v: &Vec<String>, x: &Vec<char>) -> (r: bool)
    ensures
        r == string_views(v@).contains(x@),
{
    let mut i: usize = 0;
    while i < v.len()
        invariant
            i <= v@.len(),
            forall|j: int| 0 <= j < i ==> string_views(v@)[j] != x@,
        decreases v.len() - i,
    {
        let w = chars_of(v[i].as_str());
        if crate::text::eq_chars(&w, x) {
            assert(string_views(v@)[i as int] == x@);
            return true;
        }
        i += 1;
    }
    false
}

fn query_terms(query: &str, drop_code_words: bool) -> (r: Vec<Vec<char>>)
    ensures
        views(r@) == scoring_terms(words(lowercase(query@)), drop_code_words),
{
    let stop: [&str; 64] = [
        "the", "a", "an", "is", "are", "was", "were", "be", "been", "being", "have", "has", "had",
        "do", "does", "did", "will", "would", "could", "should", "may", "might", "can", "shall",
        "to", "of", "in", "for", "on", "with", "at", "by", "from", "it", "this", "that", "these",
        "those", "i", "me", "my", "we", "our", "you", "your", "he", "she", "they", "them", "what",
        "which", "who", "when", "where", "why", "how", "not", "no", "nor", "and", "or", "but",
        "if", "then",
    ];
    let code_stop: [&str; 25] = [
        "implementation", "function", "method", "class", "struct", "code", "file", "module",
        "type", "interface", "trait", "find", "show", "get", "search", "look", "where", "works",
        "work", "use", "used", "using", "codebase", "project", "repository",
    ];
    assert(str_views(stop@) =~= stop_words());
    assert(str_views(code_stop@) =~= code_stop_words());
    let q = lowercase_chars(&chars_of(query));
    let ws = split_words(&q);
    let mut out: Vec<Vec<char>> = Vec::new();
    let mut i: usize = 0;
    while i < ws.len()
        invariant
            i <= ws.len(),
            str_views(stop@) == stop_words(),
            str_views(code_stop@) == code_stop_words(),
            views(ws@) == words(lowercase(query@)),
            views(out@) == scoring_terms(views(ws@).take(i as int), drop_code_words),
        decreases ws.len() - i,
    {
        assert(views(ws@).take(i as int + 1).drop_last() =~= views(ws@).take(i as int));
        assert(views(ws@).take(i as int + 1).last() == ws@[i as int]@);
        let w = &ws[i];
        let long = w.len() > 1 || (w.len() == 1 && (w[0] as u32) >= 128);
        if long && !in_word_list(w, &stop) && !(drop_code_words && in_word_list(w, &code_stop)) {
            let c = crate::text::copy_chars(w);
            let ghost o = views(out@);
            out.push(c);
            assert(views(out@) =~= o.push(w@));
        }
        i += 1;
    }
    assert(views(ws@).take(ws.len() as int) =~= views(ws@));
    out
}

/// How a query's terms match a symbol: (weighted matches, number of terms),
/// the terms being the words of the lowercased query that are longer than
/// one byte and no stop word, and a term counting two when it is one of the
/// name's words and one when it is one of the signature's words.
pub fn relevance_counts(query: &str, name: &str, signature: Option<&str>) -> (r: (u128, u128))
    ensures
        ({
            let terms = scoring_terms(words(lowercase(query@)), false);
            let sig_words = match signature {
                Some(sig) => identifier_words(sig@),
                None => seq![],
            };
            r.0 == term_matches(terms, identifier_words(name@), sig_words) && r.1 == terms.len()
        }),
{
    let terms = query_terms(query, false);
    let name_words = tokenize_identifier(name);
    let sig_words: Vec<String> = match signature {
        Some(sig) => tokenize_identifier(sig),
        None => Vec::new(),
    };
    let ghost tv = views(terms@);
    let ghost sw = match signature {
        Some(sig) => identifier_words(sig@),
        None => seq![],
    };
    assert(string_views(sig_words@) =~= sw);
    let mut m: u128 = 0;
    let mut i: usize = 0;
    while i < terms.len()
        invariant
            i <= terms@.len(),
            tv == views(terms@),
            string_views(name_words@) == identifier_words(name@),
            string_views(sig_words@) == sw,
            m == term_matches(tv.take(i as int), identifier_words(name@), sw),
            m <= 3 * i,
        decreases terms.len() - i,
    {
        assert(tv.take(i as int + 1).drop_last() =~= tv.take(i as int));
        assert(tv.take(i as int + 1).last() == terms@[i as int]@);
        let t = &terms[i];
        if has_word(&name_words, t) {
            m = m + 2;
        }
        if has_word(&sig_words, t) {
            m = m + 1;
        }
        i += 1;
    }
    assert(tv.take(terms@.len() as int) =~= tv);
    (m, terms.len() as u128)
}

/// How a query's terms match a file path: (terms found, number of terms),
/// the terms being as for [`relevance_counts`] without code stop words, and
/// a term found when it is one of the lowercased path's words or occurs in it.
pub fn path_counts(query: &str, file_path: &str) -> (r: (u128, u128))
    ensures
        ({
            let terms = scoring_terms(words(lowercase(query@)), true);
            let path = lowercase(file_path@);
            r.0 == path_matches(terms, path, identifier_words(path)) && r.1 == terms.len()
        }),
{
    let terms = query_terms(query, true);
    let path = lowercase_chars(&chars_of(file_path));
    let path_str = string_of(&path);
    let path_words = tokenize_identifier(path_str.as_str());
    let ghost tv = views(terms@);
    let mut m: u128 = 0;
    let mut i: usize = 0;
    while i < terms.len()
        invariant
            i <= terms@.len(),
            tv == views(terms@),
            path@ == lowercase(file_path@),
            string_views(path_words@) == identifier_words(path@),
            m == path_matches(tv.take(i as int), path@, identifier_words(path@)),
            m <= i,
        decreases terms.len() - i,
    {
        assert(tv.take(i as int + 1).drop_last() =~= tv.take(i as int));
        assert(tv.take(i as int + 1).last() == terms@[i as int]@);
        let t = &terms[i];
        if has_word(&path_words, t) || crate::text::contains_chars(&path, t) {
            m = m + 1;
        }
        i += 1;
    }
    assert(tv.take(terms@.len() as int) =~= tv);
    (m, terms.len() as u128)
}

} // verus!
