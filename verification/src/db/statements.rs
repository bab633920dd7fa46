//! The filtered queries over the index as SQL text and parameters: which
//! filters apply, how their placeholders are numbered and what each binds.
use vstd::prelude::*;

use crate::capsule::search::{fts_or_query, sanitize_fts_query};
use crate::text::{
    append_chars, chars_of, decimal, digit_char, eq_chars, join, push_decimal, split_words, string_of, utf8_longer_than_one, views,
    words,
};

verus! {

/// A value bound to a placeholder; `MinConfidence` stands for the caller's
/// minimum confidence, a real number.
#[derive(Debug, Clone, PartialEq, Eq)]
pub enum SqlParam {
    Text(String),
    Integer(i64),
    MinConfidence,
}

/// A parameter as a plain value.
pub enum ParamView {
    Text(Seq<char>),
    Integer(int),
    MinConfidence,
}

pub open spec fn param_view(p: SqlParam) -> ParamView {
    match p {
        SqlParam::Text(s) => ParamView::Text(s@),
        SqlParam::Integer(i) => ParamView::Integer(i as int),
        SqlParam::MinConfidence => ParamView::MinConfidence,
    }
}

pub open spec fn param_views(ps: Seq<SqlParam>) -> Seq<ParamView> {
    ps.map_values(|p: SqlParam| param_view(p))
}

/// SQL text with its parameters, bound to `?1`, `?2`... in order.
#[derive(Debug)]
pub struct Statement {
    pub sql: String,
    pub params: Vec<SqlParam>,
}

/// The statement as plain values.
pub open spec fn statement_view(s: Statement) -> (Seq<char>, Seq<ParamView>) {
    (s.sql@, param_views(s.params@))
}

/// The placeholder `?i`.
pub open spec fn ph(i: nat) -> Seq<char> {
    "?"@ + decimal(i)
}

/// `%s%`: a LIKE pattern matching any text containing `s`.
pub open spec fn like_pattern(s: Seq<char>) -> Seq<char> {
    "%"@ + s + "%"@
}

pub open spec fn opt_view(o: Option<&str>) -> Option<Seq<char>> {
    match o {
        Some(s) => Some(s@),
        None => None,
    }
}

/// The filters on a symbol's file path (containing), visibility and export,
/// with placeholders from `idx` on: (text, parameters, next index).
pub open spec fn node_filters(
    file_path: Option<Seq<char>>,
    visibility: Option<Seq<char>>,
    exported_only: bool,
    idx: nat,
) -> (Seq<char>, Seq<ParamView>, nat) {
    let (s1, p1, i1): (Seq<char>, Seq<ParamView>, nat) = match file_path {
        Some(fp) => (" AND f.path LIKE "@ + ph(idx), seq![ParamView::Text(like_pattern(fp))], idx + 1),
        None => (seq![], seq![], idx),
    };
    let (s2, p2, i2): (Seq<char>, Seq<ParamView>, nat) = match visibility {
        Some(v) => (" AND n.visibility = "@ + ph(i1), seq![ParamView::Text(v)], i1 + 1),
        None => (seq![], seq![], i1),
    };
    let s3 = if exported_only {
        " AND n.is_export = 1"@
    } else {
        Seq::<char>::empty()
    };
    (s1 + s2 + s3, p1 + p2, i2)
}

fn push_str(out: &mut Vec<char>, s: &str)
    ensures
        final(out)@ == old(out)@ + s@,
{
    let v = chars_of(s);
    append_chars(out, &v);
}

/// Appends the decimal digits of `n`.
fn push_count(out: &mut Vec<char>, n: u128)
    ensures
        final(out)@ == old(out)@ + decimal(n as nat),
    decreases n,
{
    if n >= 10 {
        push_count(out, n / 10);
    }
    let d = (n % 10) as u64;
    let ghost before = out@;
    push_decimal(out, d);
    assert(decimal(d as nat) == seq![digit_char(d as nat)]);
    assert(final(out)@ =~= old(out)@ + decimal(n as nat));
}

fn push_ph(out: &mut Vec<char>, i: u128)
    ensures
        final(out)@ == old(out)@ + ph(i as nat),
{
    let ghost before = out@;
    out.push('?');
    push_count(out, i);
    proof {
        reveal_strlit("?");
    }
    assert(out@ =~= before + ph(i as nat));
}

fn push_node_filters(
    sql: &mut Vec<char>,
    params: &mut Vec<SqlParam>,
    file_path: Option<&str>,
    visibility: Option<&str>,
    exported_only: bool,
    idx: u128,
) -> (next: u128)
    requires
        idx + 2 < u128::MAX,
    ensures
        ({
            let f = node_filters(opt_view(file_path), opt_view(visibility), exported_only, idx as nat);
            &&& final(sql)@ == old(sql)@ + f.0
            &&& param_views(final(params)@) == param_views(old(params)@) + f.1
            &&& next == f.2
        }),
{
    let ghost s0 = sql@;
    let ghost p0 = param_views(params@);
    let mut i = idx;
    if let Some(fp) = file_path {
        push_str(sql, " AND f.path LIKE ");
        push_ph(sql, i);
        let mut pat: Vec<char> = Vec::new();
        pat.push('%');
        append_chars(&mut pat, &chars_of(fp));
        pat.push('%');
        proof {
            reveal_strlit("%");
        }
        assert(pat@ =~= like_pattern(fp@));
        params.push(SqlParam::Text(string_of(&pat)));
        i = i + 1;
    }
    let ghost s1 = sql@;
    let ghost p1 = param_views(params@);
    if let Some(v) = visibility {
        push_str(sql, " AND n.visibility = ");
        push_ph(sql, i);
        params.push(SqlParam::Text(v.to_string()));
        i = i + 1;
    }
    if exported_only {
        push_str(sql, " AND n.is_export = 1");
    }
    proof {
        let f = node_filters(opt_view(file_path), opt_view(visibility), exported_only, idx as nat);
        assert(sql@ =~= s0 + f.0);
        assert(param_views(params@) =~= p0 + f.1);
    }
    i
}

/// The columns a symbol query returns.
pub open spec fn node_columns() -> Seq<char> {
    "SELECT n.name, n.qualified_name, n.kind, f.path,\n                n.line_start, n.line_end, n.visibility, n.is_export,\n                n.signature, n.docstring"@
}

/// The full-text symbol query for `query` (restricted to names and paths),
/// ranked by relevance: imports are left out unless a kind is asked for;
/// `None` when sanitizing leaves no query.
pub open spec fn fts_statement(
    query: Seq<char>,
    kind: Option<Seq<char>>,
    file_path: Option<Seq<char>>,
    visibility: Option<Seq<char>>,
    exported_only: bool,
    limit: i64,
) -> Option<(Seq<char>, Seq<ParamView>)> {
    let f = fts_or_query(query);
    if f.len() == 0 {
        None
    } else {
        let head = node_columns() + "\n         FROM nodes_fts nf\n         JOIN nodes n ON n.id = nf.rowid\n         JOIN files f ON f.id = n.file_id\n         WHERE nodes_fts MATCH ?1"@;
        let matched = "{name qualified_name tokenized_name tokenized_qualified_name file_path}: "@ + f;
        let (k, kp, i1): (Seq<char>, Seq<ParamView>, nat) = match kind {
            Some(k) => (" AND n.kind = "@ + ph(2), seq![ParamView::Text(k)], 3),
            None => (" AND n.kind != 'import'"@, seq![], 2),
        };
        let fl = node_filters(file_path, visibility, exported_only, i1);
        Some(
            (
                head + k + fl.0 + " ORDER BY nf.rank LIMIT "@ + ph(fl.2),
                seq![ParamView::Text(matched)] + kp + fl.1 + seq![ParamView::Integer(limit as int)],
            ),
        )
    }
}

/// The full-text symbol query, as [`fts_statement`] says.
pub fn nodes_fts_statement(
    query: &str,
    kind: Option<&str>,
    file_path: Option<&str>,
    visibility: Option<&str>,
    exported_only: bool,
    limit: usize,
) -> (r: Option<Statement>)
    ensures
        match r {
            Some(st) => fts_statement(query@, opt_view(kind), opt_view(file_path), opt_view(visibility), exported_only, limit as i64)
                == Some(statement_view(st)),
            None => fts_statement(query@, opt_view(kind), opt_view(file_path), opt_view(visibility), exported_only, limit as i64) is None,
        },
{
    let f = sanitize_fts_query(query);
    let fc = chars_of(f.as_str());
    if fc.len() == 0 {
        return None;
    }
    let ghost spec = fts_statement(query@, opt_view(kind), opt_view(file_path), opt_view(visibility), exported_only, limit as i64);
    let ghost matched = "{name qualified_name tokenized_name tokenized_qualified_name file_path}: "@ + fc@;
    let mut sql: Vec<char> = Vec::new();
    let mut params: Vec<SqlParam> = Vec::new();
    push_str(&mut sql, "SELECT n.name, n.qualified_name, n.kind, f.path,\n                n.line_start, n.line_end, n.visibility, n.is_export,\n                n.signature, n.docstring");
    push_str(&mut sql, "\n         FROM nodes_fts nf\n         JOIN nodes n ON n.id = nf.rowid\n         JOIN files f ON f.id = n.file_id\n         WHERE nodes_fts MATCH ?1");
    let mut m: Vec<char> = Vec::new();
    push_str(&mut m, "{name qualified_name tokenized_name tokenized_qualified_name file_path}: ");
    append_chars(&mut m, &fc);
    assert(m@ == matched);
    params.push(SqlParam::Text(string_of(&m)));
    assert(param_views(params@) =~= seq![ParamView::Text(matched)]);
    let ghost s1 = sql@;
    let ghost p1 = param_views(params@);
    let mut idx: u128 = 2;
    match kind {
        Some(k) => {
            push_str(&mut sql, " AND n.kind = ");
            push_ph(&mut sql, 2);
            params.push(SqlParam::Text(k.to_string()));
            assert(param_views(params@) =~= p1 + seq![ParamView::Text(k@)]);
            idx = 3;
        },
        None => {
            push_str(&mut sql, " AND n.kind != 'import'");
            assert(param_views(params@) =~= p1 + Seq::<ParamView>::empty());
        },
    }
    let ghost s2 = sql@;
    let ghost p2 = param_views(params@);
    let next = push_node_filters(&mut sql, &mut params, file_path, visibility, exported_only, idx);
    let ghost p3 = param_views(params@);
    push_str(&mut sql, " ORDER BY nf.rank LIMIT ");
    push_ph(&mut sql, next);
    params.push(SqlParam::Integer(limit as i64));
    assert(param_views(params@) =~= p3 + seq![ParamView::Integer((limit as i64) as int)]);
    proof {
        assert(spec is Some);
        let expect = spec->0;
        assert(sql@ =~= expect.0);
        assert(param_views(params@) =~= expect.1);
    }
    Some(Statement { sql: string_of(&sql), params })
}

/// The words of a query longer than one UTF-8 byte, in order.
pub open spec fn long_words(ws: Seq<Seq<char>>) -> Seq<Seq<char>>
    decreases ws.len(),
{
    if ws.len() == 0 {
        seq![]
    } else if utf8_longer_than_one(ws.last()) {
        long_words(ws.drop_last()).push(ws.last())
    } else {
        long_words(ws.drop_last())
    }
}

/// The condition one term places on a symbol, with its placeholder `?i`.
pub open spec fn term_condition(i: nat) -> Seq<char> {
    "(n.name LIKE "@ + ph(i) + " COLLATE NOCASE OR n.qualified_name LIKE "@ + ph(i)
        + " COLLATE NOCASE OR n.signature LIKE "@ + ph(i) + " COLLATE NOCASE OR f.path LIKE "@ + ph(i)
        + " COLLATE NOCASE)"@
}

/// The condition a text query places on a symbol, with its parameters and
/// the next placeholder index.
pub open spec fn query_condition(query: Option<Seq<char>>) -> (Seq<char>, Seq<ParamView>, nat) {
    match query {
        None => (seq![], seq![], 1),
        Some(q) => {
            let ts = long_words(words(q));
            if ts.len() == 0 {
                (
                    " AND (n.name LIKE ?1 OR n.qualified_name LIKE ?1 OR f.path LIKE ?1)"@,
                    seq![ParamView::Text(like_pattern(q))],
                    2,
                )
            } else {
                (
                    " AND ("@ + join(Seq::new(ts.len(), |j: int| term_condition((j + 1) as nat)), " OR "@) + ")"@,
                    ts.map_values(|t: Seq<char>| ParamView::Text(like_pattern(t))),
                    ts.len() + 1,
                )
            }
        },
    }
}

/// The symbol query by substring: for a query, each of its words longer
/// than one byte may match the name, qualified name, signature or path
/// (ignoring case), or, without such words, the whole query the name,
/// qualified name or path; then the kind, path, visibility and export
/// filters; ordered by path and line.
pub open spec fn like_statement(
    query: Option<Seq<char>>,
    kind: Option<Seq<char>>,
    file_path: Option<Seq<char>>,
    visibility: Option<Seq<char>>,
    exported_only: bool,
    limit: i64,
) -> (Seq<char>, Seq<ParamView>) {
    let (c, cp, i1) = query_condition(query);
    let (k, kp, i2): (Seq<char>, Seq<ParamView>, nat) = match kind {
        Some(k) => (" AND n.kind = "@ + ph(i1), seq![ParamView::Text(k)], i1 + 1),
        None => (seq![], seq![], i1),
    };
    let fl = node_filters(file_path, visibility, exported_only, i2);
    let params = cp + kp + fl.1;
    (
        node_columns() + " FROM nodes n\n         JOIN files f ON f.id = n.file_id\n         WHERE 1=1"@ + c + k + fl.0
            + " ORDER BY f.path, n.line_start LIMIT "@ + ph(params.len() + 1),
        params + seq![ParamView::Integer(limit as int)],
    )
}

fn push_term_condition(out: &mut Vec<char>, i: u128)
    ensures
        final(out)@ == old(out)@ + term_condition(i as nat),
{
    let ghost b = out@;
    push_str(out, "(n.name LIKE ");
    push_ph(out, i);
    push_str(out, " COLLATE NOCASE OR n.qualified_name LIKE ");
    push_ph(out, i);
    push_str(out, " COLLATE NOCASE OR n.signature LIKE ");
    push_ph(out, i);
    push_str(out, " COLLATE NOCASE OR f.path LIKE ");
    push_ph(out, i);
    push_str(out, " COLLATE NOCASE)");
    assert(out@ =~= b + term_condition(i as nat));
}

/// The words of `ws` longer than one UTF-8 byte, as [`long_words`] says.
fn long_words_of(ws: &Vec<Vec<char>>) -> (r: Vec<Vec<char>>)
    ensures
        views(r@) == long_words(views(ws@)),
{
    let mut out: Vec<Vec<char>> = Vec::new();
    let mut i: usize = 0;
    while i < ws.len()
        invariant
            i <= ws@.len(),
            views(out@) == long_words(views(ws@).take(i as int)),
        decreases ws.len() - i,
    {
        assert(views(ws@).take(i as int + 1).drop_last() =~= views(ws@).take(i as int));
        assert(views(ws@).take(i as int + 1).last() == ws@[i as int]@);
        let w = &ws[i];
        if w.len() > 1 || (w.len() == 1 && (w[0] as u32) >= 128) {
            let ghost o = views(out@);
            out.push(w.clone());
            assert(views(out@) =~= o.push(ws@[i as int]@));
        }
        i += 1;
    }
    assert(views(ws@).take(ws@.len() as int) =~= views(ws@));
    out
}

fn like_text(s: &Vec<char>) -> (r: String)
    ensures
        r@ == like_pattern(s@),
{
    let mut pat: Vec<char> = Vec::new();
    pat.push('%');
    append_chars(&mut pat, s);
    pat.push('%');
    proof {
        reveal_strlit("%");
    }
    assert(pat@ =~= like_pattern(s@));
    string_of(&pat)
}

/// Appends ` AND (` and the terms' conditions joined by ` OR `, then `)`,
/// and binds each term as a LIKE pattern.
fn push_term_conditions(sql: &mut Vec<char>, params: &mut Vec<SqlParam>, ts: &Vec<Vec<char>>)
    requires
        ts@.len() > 0,
        old(params)@.len() == 0,
    ensures
        final(sql)@ == old(sql)@ + " AND ("@ + join(
            Seq::new(views(ts@).len(), |j: int| term_condition((j + 1) as nat)),
            " OR "@,
        ) + ")"@,
        param_views(final(params)@) == views(ts@).map_values(|t: Seq<char>| ParamView::Text(like_pattern(t))),
{
    let ghost tv = views(ts@);
    let ghost conds = Seq::new(tv.len(), |j: int| term_condition((j + 1) as nat));
    let ghost s0 = sql@;
    push_str(sql, " AND (");
    let ghost sa = sql@;
    let mut j: usize = 0;
    assert(param_views(params@) =~= tv.take(0).map_values(|t: Seq<char>| ParamView::Text(like_pattern(t))));
    while j < ts.len()
        invariant
            j <= ts@.len(),
            tv == views(ts@),
            conds == Seq::new(tv.len(), |j: int| term_condition((j + 1) as nat)),
            sql@ == sa + join(conds.take(j as int), " OR "@),
            param_views(params@) == tv.take(j as int).map_values(|t: Seq<char>| ParamView::Text(like_pattern(t))),
        decreases ts.len() - j,
    {
        let ghost before = sql@;
        if j > 0 {
            push_str(sql, " OR ");
        }
        push_term_condition(sql, (j as u128) + 1);
        assert(conds.take(j as int + 1).drop_last() =~= conds.take(j as int));
        assert(conds.take(j as int + 1).last() == term_condition((j + 1) as nat));
        if j == 0 {
            assert(conds.take(0) =~= Seq::<Seq<char>>::empty());
            assert(sql@ =~= sa + join(conds.take(1), " OR "@));
        } else {
            assert(sql@ =~= sa + join(conds.take(j as int + 1), " OR "@));
        }
        let ghost pv = param_views(params@);
        let lt = like_text(&ts[j]);
        params.push(SqlParam::Text(lt));
        assert(tv[j as int] == ts@[j as int]@);
        assert(param_views(params@) =~= pv.push(ParamView::Text(like_pattern(tv[j as int]))));
        assert(tv.take(j as int + 1) =~= tv.take(j as int).push(tv[j as int]));
        assert(param_views(params@) =~= tv.take(j as int + 1).map_values(
            |t: Seq<char>| ParamView::Text(like_pattern(t)),
        ));
        j += 1;
    }
    assert(conds.take(ts@.len() as int) =~= conds);
    assert(tv.take(ts@.len() as int) =~= tv);
    push_str(sql, ")");
    assert(sql@ =~= s0 + " AND ("@ + join(conds, " OR "@) + ")"@);
}

/// Appends the condition of a text query, as [`query_condition`] says.
fn push_query_condition(sql: &mut Vec<char>, params: &mut Vec<SqlParam>, query: Option<&str>) -> (next: u128)
    requires
        old(params)@.len() == 0,
    ensures
        ({
            let c = query_condition(opt_view(query));
            &&& final(sql)@ == old(sql)@ + c.0
            &&& param_views(final(params)@) == c.1
            &&& next == c.2
            &&& next < u128::MAX - 8
        }),
{
    let ghost s0 = sql@;
    match query {
        None => {
            assert(sql@ =~= s0 + Seq::<char>::empty());
            assert(param_views(params@) =~= Seq::<ParamView>::empty());
            1
        },
        Some(q) => {
            let qc = chars_of(q);
            let ws = split_words(&qc);
            let ts = long_words_of(&ws);
            if ts.len() == 0 {
                push_str(sql, " AND (n.name LIKE ?1 OR n.qualified_name LIKE ?1 OR f.path LIKE ?1)");
                params.push(SqlParam::Text(like_text(&qc)));
                assert(param_views(params@) =~= seq![ParamView::Text(like_pattern(q@))]);
                2
            } else {
                push_term_conditions(sql, params, &ts);
                (ts.len() as u128) + 1
            }
        },
    }
}

/// The symbol query by substring, as [`like_statement`] says.
pub fn nodes_like_statement(
    query: Option<&str>,
    kind: Option<&str>,
    file_path: Option<&str>,
    visibility: Option<&str>,
    exported_only: bool,
    limit: usize,
) -> (r: Statement)
    ensures
        statement_view(r) == like_statement(
            opt_view(query),
            opt_view(kind),
            opt_view(file_path),
            opt_view(visibility),
            exported_only,
            limit as i64,
        ),
{
    let mut sql: Vec<char> = Vec::new();
    let mut params: Vec<SqlParam> = Vec::new();
    push_str(&mut sql, "SELECT n.name, n.qualified_name, n.kind, f.path,\n                n.line_start, n.line_end, n.visibility, n.is_export,\n                n.signature, n.docstring");
    push_str(&mut sql, " FROM nodes n\n         JOIN files f ON f.id = n.file_id\n         WHERE 1=1");
    let ghost s0 = sql@;
    let mut idx = push_query_condition(&mut sql, &mut params, query);
    let ghost s1 = sql@;
    let ghost p1 = param_views(params@);
    if let Some(k) = kind {
        push_str(&mut sql, " AND n.kind = ");
        push_ph(&mut sql, idx);
        params.push(SqlParam::Text(k.to_string()));
        assert(param_views(params@) =~= p1 + seq![ParamView::Text(k@)]);
        idx = idx + 1;
    }
    let ghost p2 = param_views(params@);
    let next = push_node_filters(&mut sql, &mut params, file_path, visibility, exported_only, idx);
    push_str(&mut sql, " ORDER BY f.path, n.line_start LIMIT ");
    let ghost p3 = param_views(params@);
    push_ph(&mut sql, (params.len() as u128) + 1);
    params.push(SqlParam::Integer(limit as i64));
    assert(param_views(params@) =~= p3 + seq![ParamView::Integer((limit as i64) as int)]);
    proof {
        let expect = like_statement(opt_view(query), opt_view(kind), opt_view(file_path), opt_view(visibility), exported_only, limit as i64);
        assert(sql@ =~= expect.0);
        assert(param_views(params@) =~= expect.1);
    }
    Statement { sql: string_of(&sql), params }
}

/// The relationship query: relationships of a symbol (named or qualified)
/// going out of it, coming into it, or either (the default, and for any
/// other direction); of a kind; at least as confident as the caller's
/// minimum; most confident first.
pub open spec fn edges_statement(
    symbol: Option<Seq<char>>,
    kind: Option<Seq<char>>,
    has_min_confidence: bool,
    direction: Option<Seq<char>>,
    limit: i64,
) -> (Seq<char>, Seq<ParamView>) {
    let head = "SELECT sn.name, sn.qualified_name, sf.path,\n                tn.name, tn.qualified_name, tf.path,\n                e.kind, e.confidence, e.context\n         FROM edges e\n         JOIN nodes sn ON sn.id = e.source_node_id\n         JOIN nodes tn ON tn.id = e.target_node_id\n         JOIN files sf ON sf.id = sn.file_id\n         JOIN files tf ON tf.id = tn.file_id\n         WHERE 1=1"@;
    let (s1, p1, i1): (Seq<char>, Seq<ParamView>, nat) = match symbol {
        Some(sym) => {
            let dir = match direction {
                Some(d) => d,
                None => "both"@,
            };
            let clause = if dir == "outgoing"@ {
                " AND (sn.name = ?1 OR sn.qualified_name = ?1)"@
            } else if dir == "incoming"@ {
                " AND (tn.name = ?1 OR tn.qualified_name = ?1)"@
            } else {
                " AND (sn.name = ?1 OR sn.qualified_name = ?1 OR tn.name = ?1 OR tn.qualified_name = ?1)"@
            };
            (clause, seq![ParamView::Text(sym)], 2)
        },
        None => (seq![], seq![], 1),
    };
    let (s2, p2, i2): (Seq<char>, Seq<ParamView>, nat) = match kind {
        Some(k) => (" AND e.kind = "@ + ph(i1), seq![ParamView::Text(k)], i1 + 1),
        None => (seq![], seq![], i1),
    };
    let (s3, p3, i3): (Seq<char>, Seq<ParamView>, nat) = if has_min_confidence {
        (" AND e.confidence >= "@ + ph(i2), seq![ParamView::MinConfidence], i2 + 1)
    } else {
        (seq![], seq![], i2)
    };
    (
        head + s1 + s2 + s3 + " ORDER BY e.confidence DESC LIMIT "@ + ph(i3),
        p1 + p2 + p3 + seq![ParamView::Integer(limit as int)],
    )
}

/// The relationship query, as [`edges_statement`] says; the caller binds its
/// minimum confidence where [`SqlParam::MinConfidence`] stands.
pub fn edges_filtered_statement(
    symbol: Option<&str>,
    kind: Option<&str>,
    has_min_confidence: bool,
    direction: Option<&str>,
    limit: usize,
) -> (r: Statement)
    ensures
        statement_view(r) == edges_statement(opt_view(symbol), opt_view(kind), has_min_confidence, opt_view(direction), limit as i64),
{
    let mut sql: Vec<char> = Vec::new();
    let mut params: Vec<SqlParam> = Vec::new();
    push_str(&mut sql, "SELECT sn.name, sn.qualified_name, sf.path,\n                tn.name, tn.qualified_name, tf.path,\n                e.kind, e.confidence, e.context\n         FROM edges e\n         JOIN nodes sn ON sn.id = e.source_node_id\n         JOIN nodes tn ON tn.id = e.target_node_id\n         JOIN files sf ON sf.id = sn.file_id\n         JOIN files tf ON tf.id = tn.file_id\n         WHERE 1=1");
    let ghost s0 = sql@;
    let mut idx: u128 = 1;
    if let Some(sym) = symbol {
        let dir: &str = match direction {
            Some(d) => d,
            None => "both",
        };
        let dc = chars_of(dir);
        if eq_chars(&dc, &chars_of("outgoing")) {
            push_str(&mut sql, " AND (sn.name = ?1 OR sn.qualified_name = ?1)");
        } else if eq_chars(&dc, &chars_of("incoming")) {
            push_str(&mut sql, " AND (tn.name = ?1 OR tn.qualified_name = ?1)");
        } else {
            push_str(&mut sql, " AND (sn.name = ?1 OR sn.qualified_name = ?1 OR tn.name = ?1 OR tn.qualified_name = ?1)");
        }
        params.push(SqlParam::Text(sym.to_string()));
        assert(param_views(params@) =~= seq![ParamView::Text(sym@)]);
        idx = 2;
    } else {
        assert(param_views(params@) =~= Seq::<ParamView>::empty());
    }
    let ghost p1 = param_views(params@);
    if let Some(k) = kind {
        push_str(&mut sql, " AND e.kind = ");
        push_ph(&mut sql, idx);
        params.push(SqlParam::Text(k.to_string()));
        assert(param_views(params@) =~= p1 + seq![ParamView::Text(k@)]);
        idx = idx + 1;
    } else {
        assert(param_views(params@) =~= p1 + Seq::<ParamView>::empty());
    }
    let ghost p2 = param_views(params@);
    if has_min_confidence {
        push_str(&mut sql, " AND e.confidence >= ");
        push_ph(&mut sql, idx);
        params.push(SqlParam::MinConfidence);
        assert(param_views(params@) =~= p2 + seq![ParamView::MinConfidence]);
        idx = idx + 1;
    } else {
        assert(param_views(params@) =~= p2 + Seq::<ParamView>::empty());
    }
    let ghost p3 = param_views(params@);
    push_str(&mut sql, " ORDER BY e.confidence DESC LIMIT ");
    push_ph(&mut sql, idx);
    params.push(SqlParam::Integer(limit as i64));
    assert(param_views(params@) =~= p3 + seq![ParamView::Integer((limit as i64) as int)]);
    proof {
        let expect = edges_statement(opt_view(symbol), opt_view(kind), has_min_confidence, opt_view(direction), limit as i64);
        assert(sql@ =~= expect.0);
        assert(param_views(params@) =~= expect.1);
    }
    Statement { sql: string_of(&sql), params }
}

/// The order a file listing asks for: by size, tokens or indexing time
/// (largest or latest first), else by path.
pub open spec fn file_order(sort_by: Option<Seq<char>>) -> Seq<char> {
    if sort_by == Some("size"@) {
        "size_bytes DESC"@
    } else if sort_by == Some("tokens"@) {
        "token_count DESC"@
    } else if sort_by == Some("indexed_at"@) {
        "indexed_at DESC"@
    } else {
        "path ASC"@
    }
}

/// The file listing: of one language, in the order asked for.
pub open spec fn files_statement(language: Option<Seq<char>>, sort_by: Option<Seq<char>>, limit: i64) -> (
    Seq<char>,
    Seq<ParamView>,
) {
    let head = "SELECT path, language, size_bytes, token_count, content_hash, indexed_at\n         FROM files WHERE 1=1"@;
    let (s1, p1, i1): (Seq<char>, Seq<ParamView>, nat) = match language {
        Some(l) => (" AND language = ?1"@, seq![ParamView::Text(l)], 2),
        None => (seq![], seq![], 1),
    };
    (
        head + s1 + " ORDER BY "@ + file_order(sort_by) + " LIMIT "@ + ph(i1),
        p1 + seq![ParamView::Integer(limit as int)],
    )
}

/// The file listing, as [`files_statement`] says.
pub fn files_filtered_statement(language: Option<&str>, sort_by: Option<&str>, limit: usize) -> (r: Statement)
    ensures
        statement_view(r) == files_statement(opt_view(language), opt_view(sort_by), limit as i64),
{
    let mut sql: Vec<char> = Vec::new();
    let mut params: Vec<SqlParam> = Vec::new();
    push_str(&mut sql, "SELECT path, language, size_bytes, token_count, content_hash, indexed_at\n         FROM files WHERE 1=1");
    let mut idx: u128 = 1;
    if let Some(l) = language {
        push_str(&mut sql, " AND language = ?1");
        params.push(SqlParam::Text(l.to_string()));
        assert(param_views(params@) =~= seq![ParamView::Text(l@)]);
        idx = 2;
    } else {
        assert(param_views(params@) =~= Seq::<ParamView>::empty());
    }
    let ghost p1 = param_views(params@);
    push_str(&mut sql, " ORDER BY ");
    let order: &str = match sort_by {
        Some(s) => {
            let sc = chars_of(s);
            if eq_chars(&sc, &chars_of("size")) {
                "size_bytes DESC"
            } else if eq_chars(&sc, &chars_of("tokens")) {
                "token_count DESC"
            } else if eq_chars(&sc, &chars_of("indexed_at")) {
                "indexed_at DESC"
            } else {
                "path ASC"
            }
        },
        None => "path ASC",
    };
    assert(order@ == file_order(opt_view(sort_by)));
    push_str(&mut sql, order);
    push_str(&mut sql, " LIMIT ");
    push_ph(&mut sql, idx);
    params.push(SqlParam::Integer(limit as i64));
    assert(param_views(params@) =~= p1 + seq![ParamView::Integer((limit as i64) as int)]);
    proof {
        let expect = files_statement(opt_view(language), opt_view(sort_by), limit as i64);
        assert(sql@ =~= expect.0);
        assert(param_views(params@) =~= expect.1);
    }
    Statement { sql: string_of(&sql), params }
}

/// The unresolved references, of files whose path contains a text, by path
/// and source name.
pub open spec fn refs_statement(file_path: Option<Seq<char>>, limit: i64) -> (Seq<char>, Seq<ParamView>) {
    let head = "SELECT sn.name, sn.qualified_name, f.path,\n                ur.target_name, ur.target_qualified_name, ur.edge_kind, ur.import_path, ur.context\n         FROM unresolved_refs ur\n         JOIN nodes sn ON sn.id = ur.source_node_id\n         JOIN files f ON f.id = sn.file_id\n         WHERE 1=1"@;
    let (s1, p1, i1): (Seq<char>, Seq<ParamView>, nat) = match file_path {
        Some(fp) => (" AND f.path LIKE ?1"@, seq![ParamView::Text(like_pattern(fp))], 2),
        None => (seq![], seq![], 1),
    };
    (head + s1 + " ORDER BY f.path, sn.name LIMIT "@ + ph(i1), p1 + seq![ParamView::Integer(limit as int)])
}

/// The unresolved references query, as [`refs_statement`] says.
pub fn unresolved_refs_statement(file_path: Option<&str>, limit: usize) -> (r: Statement)
    ensures
        statement_view(r) == refs_statement(opt_view(file_path), limit as i64),
{
    let mut sql: Vec<char> = Vec::new();
    let mut params: Vec<SqlParam> = Vec::new();
    push_str(&mut sql, "SELECT sn.name, sn.qualified_name, f.path,\n                ur.target_name, ur.target_qualified_name, ur.edge_kind, ur.import_path, ur.context\n         FROM unresolved_refs ur\n         JOIN nodes sn ON sn.id = ur.source_node_id\n         JOIN files f ON f.id = sn.file_id\n         WHERE 1=1");
    let mut idx: u128 = 1;
    if let Some(fp) = file_path {
        push_str(&mut sql, " AND f.path LIKE ?1");
        params.push(SqlParam::Text(like_text(&chars_of(fp))));
        assert(param_views(params@) =~= seq![ParamView::Text(like_pattern(fp@))]);
        idx = 2;
    } else {
        assert(param_views(params@) =~= Seq::<ParamView>::empty());
    }
    let ghost p1 = param_views(params@);
    push_str(&mut sql, " ORDER BY f.path, sn.name LIMIT ");
    push_ph(&mut sql, idx);
    params.push(SqlParam::Integer(limit as i64));
    assert(param_views(params@) =~= p1 + seq![ParamView::Integer((limit as i64) as int)]);
    proof {
        let expect = refs_statement(opt_view(file_path), limit as i64);
        assert(sql@ =~= expect.0);
        assert(param_views(params@) =~= expect.1);
    }
    Statement { sql: string_of(&sql), params }
}

} // verus!
