//! Pre-tokenization of code identifiers for full-text search.
use vstd::prelude::*;

use crate::text::{
    append_chars, camel_parts, camel_split, char_is_alphanumeric, char_is_whitespace, chars_of,
    contains_chars, contains_sub, copy_chars, is_alnum, is_ws, join, join_chars, lemma_runs_nonempty,
    lowercase, lowercase_chars, marks, runs, split_runs, split_words, string_of, views, words,
};

verus! {

/// Characters at which an identifier is cut into segments: the qualified-name
/// separators `:` and `.`, hyphen, slash and underscore.
pub open spec fn is_ident_sep(c: char) -> bool {
    c == ':' || c == '.' || c == '-' || c == '/' || c == '_'
}

/// The camel-case parts of each segment, concatenated in order.
pub open spec fn all_camel_parts(segs: Seq<Seq<char>>) -> Seq<Seq<char>>
    decreases segs.len(),
{
    if segs.len() == 0 {
        seq![]
    } else {
        all_camel_parts(segs.drop_last()) + camel_split(segs.last())
    }
}

/// The parts of an identifier: its non-empty segments, each cut further at
/// camel-case boundaries.
pub open spec fn identifier_parts(name: Seq<char>) -> Seq<Seq<char>> {
    all_camel_parts(runs(name, marks(name, |c: char| is_ident_sep(c))))
}

/// Each part, lowercased.
pub open spec fn lowered(parts: Seq<Seq<char>>) -> Seq<Seq<char>> {
    parts.map_values(|p: Seq<char>| lowercase(p))
}

/// The tokenized form of an identifier: its lowercased parts joined by single
/// spaces, followed by the whole lowercased identifier unless that already
/// occurs in the joined parts; an identifier without parts is just lowercased.
pub open spec fn tokenized_identifier(name: Seq<char>) -> Seq<char> {
    let parts = identifier_parts(name);
    if parts.len() == 0 {
        lowercase(name)
    } else {
        let joined = join(lowered(parts), seq![' ']);
        if contains_sub(joined, lowercase(name)) {
            joined
        } else {
            joined + seq![' '] + lowercase(name)
        }
    }
}

/// Characters a query token may keep: alphanumerics, whitespace, underscore.
pub open spec fn is_query_char(c: char) -> bool {
    is_alnum(c) || is_ws(c) || c == '_'
}

/// The query characters of `s`, in order.
pub open spec fn query_chars(s: Seq<char>) -> Seq<char>
    decreases s.len(),
{
    if s.len() == 0 {
        seq![]
    } else if is_query_char(s.last()) {
        query_chars(s.drop_last()).push(s.last())
    } else {
        query_chars(s.drop_last())
    }
}

/// The non-empty tokenized forms of the given words, stripped of all
/// characters other than query characters.
pub open spec fn query_tokens(ws: Seq<Seq<char>>) -> Seq<Seq<char>>
    decreases ws.len(),
{
    if ws.len() == 0 {
        seq![]
    } else {
        let t = query_chars(tokenized_identifier(ws.last()));
        if t.len() > 0 {
            query_tokens(ws.drop_last()).push(t)
        } else {
            query_tokens(ws.drop_last())
        }
    }
}

/// The tokenized form of a search query.
pub open spec fn tokenized_query(q: Seq<char>) -> Seq<char> {
    join(query_tokens(words(q)), seq![' '])
}

/// The non-empty segments of `v` cut at identifier separators.
fn ident_segments(v: &Vec<char>) -> (r: Vec<Vec<char>>)
    ensures
        views(r@) == runs(v@, marks(v@, |c: char| is_ident_sep(c))),
{
    let mut m: Vec<bool> = Vec::new();
    let mut i: usize = 0;
    while i < v.len()
        invariant
            i <= v.len(),
            m@ == marks(v@, |c: char| is_ident_sep(c)).take(i as int),
        decreases v.len() - i,
    {
        let c = v[i];
        m.push(c == ':' || c == '.' || c == '-' || c == '/' || c == '_');
        assert(m@ =~= marks(v@, |c: char| is_ident_sep(c)).take(i as int + 1));
        i += 1;
    }
    assert(m@ =~= marks(v@, |c: char| is_ident_sep(c)));
    split_runs(v, &m)
}

/// The camel-case parts of every segment, in order.
pub fn camel_parts_of_all(segs: &Vec<Vec<char>>) -> (r: Vec<Vec<char>>)
    requires
        forall|k: int| 0 <= k < segs@.len() ==> (#[trigger] segs@[k])@.len() > 0,
    ensures
        views(r@) == all_camel_parts(views(segs@)),
{
    let mut out: Vec<Vec<char>> = Vec::new();
    let mut i: usize = 0;
    while i < segs.len()
        invariant
            i <= segs.len(),
            forall|k: int| 0 <= k < segs@.len() ==> (#[trigger] segs@[k])@.len() > 0,
            views(out@) == all_camel_parts(views(segs@).take(i as int)),
        decreases segs.len() - i,
    {
        assert(segs@[i as int]@.len() > 0);
        let ps = camel_parts(&segs[i]);
        let ghost before = views(out@);
        let mut j: usize = 0;
        while j < ps.len()
            invariant
                j <= ps.len(),
                views(out@) == before + views(ps@).take(j as int),
            decreases ps.len() - j,
        {
            let ghost old_out = out@;
            let c = copy_chars(&ps[j]);
            out.push(c);
            assert(out@ == old_out.push(c));
            assert(views(out@) =~= views(old_out).push(c@));
            assert(views(ps@).take(j as int + 1) =~= views(ps@).take(j as int).push(ps@[j as int]@));
            assert(views(out@) =~= before + views(ps@).take(j as int + 1));
            j += 1;
        }
        assert(views(ps@).take(ps.len() as int) =~= views(ps@));
        assert(views(segs@).take(i as int + 1).drop_last() =~= views(segs@).take(i as int));
        i += 1;
    }
    assert(views(segs@).take(segs.len() as int) =~= views(segs@));
    out
}

/// Lowercases every part.
fn lower_all(parts: &Vec<Vec<char>>) -> (r: Vec<Vec<char>>)
    ensures
        views(r@) == lowered(views(parts@)),
{
    let mut out: Vec<Vec<char>> = Vec::new();
    let mut i: usize = 0;
    while i < parts.len()
        invariant
            i <= parts.len(),
            views(out@) == lowered(views(parts@)).take(i as int),
        decreases parts.len() - i,
    {
        let ghost old_out = out@;
        let l = lowercase_chars(&parts[i]);
        out.push(l);
        assert(views(out@) =~= views(old_out).push(l@));
        assert(lowered(views(parts@)).take(i as int + 1) =~= lowered(views(parts@)).take(i as int).push(lowercase(parts@[i as int]@)));
        assert(views(out@) =~= lowered(views(parts@)).take(i as int + 1));
        i += 1;
    }
    assert(views(out@) =~= lowered(views(parts@)));
    out
}

/// The tokenized form of an identifier, as characters.
pub fn tokenize_identifier_chars(v: &Vec<char>) -> (r: Vec<char>)
    ensures
        r@ == tokenized_identifier(v@),
{
    let segs = ident_segments(v);
    proof {
        lemma_runs_nonempty(v@, marks(v@, |c: char| is_ident_sep(c)));
        assert forall|k: int| 0 <= k < segs@.len() implies (#[trigger] segs@[k])@.len() > 0 by {
            assert(views(segs@)[k] == segs@[k]@);
        }
    }
    let parts = camel_parts_of_all(&segs);
    let lower_name = lowercase_chars(v);
    if parts.len() == 0 {
        return lower_name;
    }
    let tokens = lower_all(&parts);
    let mut sep: Vec<char> = Vec::new();
    sep.push(' ');
    let mut joined = join_chars(&tokens, &sep);
    if !contains_chars(&joined, &lower_name) {
        joined.push(' ');
        append_chars(&mut joined, &lower_name);
    }
    joined
}

/// Pre-tokenizes a code identifier for full-text search: splits it at `::`,
/// `.`, `-`, `/`, `_` and camel-case boundaries into lowercase parts joined by
/// spaces, and appends the whole lowercased identifier for exact matching
/// (`"parseConfigFile"` becomes `"parse config file parseconfigfile"`).
pub fn tokenize_identifier(name: &str) -> (r: String)
    ensures
        r@ == tokenized_identifier(name@),
{
    let v = chars_of(name);
    let t = tokenize_identifier_chars(&v);
    string_of(&t)
}

/// The query characters of `v`.
fn strip_to_query_chars(v: &Vec<char>) -> (r: Vec<char>)
    ensures
        r@ == query_chars(v@),
{
    let mut r: Vec<char> = Vec::new();
    let mut i: usize = 0;
    while i < v.len()
        invariant
            i <= v.len(),
            r@ == query_chars(v@.take(i as int)),
        decreases v.len() - i,
    {
        let c = v[i];
        let keep = char_is_alphanumeric(c) || char_is_whitespace(c) || c == '_';
        assert(v@.take(i as int + 1).drop_last() =~= v@.take(i as int));
        if keep {
            r.push(c);
        }
        i += 1;
    }
    assert(v@.take(v.len() as int) =~= v@);
    r
}

/// Tokenizes a search query word by word so that it matches tokenized
/// columns, dropping the full-text operators (`-`, `:`, `*`, `"`, `^`, ...).
pub fn tokenize_query(query: &str) -> (r: String)
    ensures
        r@ == tokenized_query(query@),
{
    let v = chars_of(query);
    let ws = split_words(&v);
    let mut toks: Vec<Vec<char>> = Vec::new();
    let mut i: usize = 0;
    while i < ws.len()
        invariant
            i <= ws.len(),
            views(toks@) == query_tokens(views(ws@).take(i as int)),
        decreases ws.len() - i,
    {
        let t = tokenize_identifier_chars(&ws[i]);
        let s = strip_to_query_chars(&t);
        assert(views(ws@).take(i as int + 1).drop_last() =~= views(ws@).take(i as int));
        if s.len() > 0 {
            toks.push(s);
            assert(views(toks@) =~= views(toks@.drop_last()).push(toks@.last()@));
        }
        i += 1;
    }
    assert(views(ws@).take(ws.len() as int) =~= views(ws@));
    let mut sep: Vec<char> = Vec::new();
    sep.push(' ');
    let j = join_chars(&toks, &sep);
    string_of(&j)
}

proof fn lemma_query_chars_clean(s: Seq<char>)
    ensures
        forall|i: int| 0 <= i < query_chars(s).len() ==> is_query_char(#[trigger] query_chars(s)[i]),
    decreases s.len(),
{
    if s.len() > 0 {
        lemma_query_chars_clean(s.drop_last());
        let a = query_chars(s.drop_last());
        let q = query_chars(s);
        assert forall|i: int| 0 <= i < q.len() implies is_query_char(#[trigger] q[i]) by {
            if i < a.len() {
                assert(q[i] == a[i]);
            }
        }
    }
}

proof fn lemma_query_tokens_clean(ws: Seq<Seq<char>>)
    ensures
        forall|k: int, i: int|
            0 <= k < query_tokens(ws).len() && 0 <= i < query_tokens(ws)[k].len() ==> is_query_char(
                #[trigger] query_tokens(ws)[k][i],
            ),
    decreases ws.len(),
{
    if ws.len() > 0 {
        lemma_query_tokens_clean(ws.drop_last());
        let t = query_chars(tokenized_identifier(ws.last()));
        lemma_query_chars_clean(tokenized_identifier(ws.last()));
        let a = query_tokens(ws.drop_last());
        let q = query_tokens(ws);
        assert forall|k: int, i: int| 0 <= k < q.len() && 0 <= i < q[k].len() implies is_query_char(
            #[trigger] q[k][i],
        ) by {
            if k < a.len() {
                assert(q[k] == a[k]);
            } else {
                assert(q[k] == t);
            }
        }
    }
}

proof fn lemma_join_chars_from(parts: Seq<Seq<char>>, sep: char, ok: spec_fn(char) -> bool)
    requires
        forall|k: int, i: int| 0 <= k < parts.len() && 0 <= i < parts[k].len() ==> ok(#[trigger] parts[k][i]),
    ensures
        forall|i: int| 0 <= i < join(parts, seq![sep]).len() ==> ok(#[trigger] join(parts, seq![sep])[i])
            || join(parts, seq![sep])[i] == sep,
    decreases parts.len(),
{
    if parts.len() > 1 {
        let init = parts.drop_last();
        assert forall|k: int, i: int| 0 <= k < init.len() && 0 <= i < init[k].len() implies ok(
            #[trigger] init[k][i],
        ) by {
            assert(init[k] == parts[k]);
        }
        lemma_join_chars_from(init, sep, ok);
        let j = join(parts, seq![sep]);
        let a = join(init, seq![sep]);
        assert forall|i: int| 0 <= i < j.len() implies ok(#[trigger] j[i]) || j[i] == sep by {
            if i < a.len() {
                assert(j[i] == a[i]);
            } else if i == a.len() {
            } else {
                assert(j[i] == parts.last()[i - a.len() - 1]);
                assert(parts.last() == parts[parts.len() - 1]);
            }
        }
    } else if parts.len() == 1 {
        assert forall|i: int| 0 <= i < parts[0].len() implies ok(#[trigger] parts[0][i]) by {}
    }
}

/// A tokenized query holds nothing but alphanumerics, whitespace and
/// underscores (the tokens are separated by spaces): no full-text operator
/// such as `-`, `:`, `*`, `"` or `^` survives.
pub proof fn lemma_tokenized_query_is_clean(q: Seq<char>)
    ensures
        forall|i: int| 0 <= i < tokenized_query(q).len() ==> is_query_char(#[trigger] tokenized_query(q)[i])
            || tokenized_query(q)[i] == ' ',
{
    lemma_query_tokens_clean(words(q));
    let ok = |c: char| is_query_char(c);
    let parts = query_tokens(words(q));
    assert forall|k: int, i: int| 0 <= k < parts.len() && 0 <= i < parts[k].len() implies ok(
        #[trigger] parts[k][i],
    ) by {}
    lemma_join_chars_from(parts, ' ', ok);
}

} // verus!
