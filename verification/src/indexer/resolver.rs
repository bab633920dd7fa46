//! Cross-file reference resolution: ties each unresolved reference to the
//! exported symbol it most likely names, with a confidence in hundredths.
use vstd::prelude::*;

use std::collections::HashMap;

use crate::db::records::{CandidateNode, ImportEdgeRecord};
use crate::text::{chars_of, eq_str};

verus! {

// ---------------------------------------------------------------------------
// Import paths against file paths
// ---------------------------------------------------------------------------

/// `s` with every leading `./` removed.
pub open spec fn trim_dot_slash(s: Seq<char>) -> Seq<char>
    decreases s.len(),
{
    if s.len() >= 2 && s[0] == '.' && s[1] == '/' {
        trim_dot_slash(s.skip(2))
    } else {
        s
    }
}

/// The part of `p` before its last `.`, or all of `p` when it has none.
pub open spec fn stem(p: Seq<char>) -> Seq<char>
    decreases p.len(),
{
    if p.len() == 0 {
        p
    } else if p.last() == '.' {
        p.drop_last()
    } else if !p.drop_last().contains('.') {
        p
    } else {
        stem(p.drop_last())
    }
}

pub open spec fn ends_with(s: Seq<char>, suffix: Seq<char>) -> bool {
    suffix.len() <= s.len() && s.skip(s.len() - suffix.len()) == suffix
}

/// Whether an import path (`./utils/helpers`, `utils/helpers`) names the file
/// at `file_path` (`src/utils/helpers.ts`): both are non-empty, and the file
/// path without its extension ends with the import path without its leading
/// `./`.
pub open spec fn path_matches(import_path: Seq<char>, file_path: Seq<char>) -> bool {
    import_path.len() > 0 && file_path.len() > 0 && ends_with(
        stem(file_path),
        trim_dot_slash(import_path),
    )
}

/// Leading `./` makes no difference to which files an import path names.
pub proof fn lemma_dot_slash_prefix_irrelevant(import_path: Seq<char>, file_path: Seq<char>)
    requires
        import_path.len() > 0,
    ensures
        path_matches(seq!['.', '/'] + import_path, file_path) == path_matches(import_path, file_path),
{
    let p = seq!['.', '/'] + import_path;
    assert(p.skip(2) =~= import_path);
}

proof fn lemma_stem_at(p: Seq<char>, k: int)
    requires
        0 <= k <= p.len(),
        forall|j: int| k <= j < p.len() ==> p[j] != '.',
        k == 0 || p[k - 1] == '.',
    ensures
        stem(p) == (if k == 0 { p } else { p.take(k - 1) }),
    decreases p.len(),
{
    if p.len() == 0 {
    } else if p.last() == '.' {
        assert(k == p.len());
        assert(p.drop_last() =~= p.take(k - 1));
    } else {
        assert(k < p.len());
        let q = p.drop_last();
        if k == 0 {
            assert forall|j: int| 0 <= j < q.len() implies q[j] != '.' by {
                assert(q[j] == p[j]);
            }
            assert(!q.contains('.'));
        } else {
            assert(q[k - 1] == '.');
            assert(q.contains('.'));
            lemma_stem_at(q, k);
            assert(q.take(k - 1) =~= p.take(k - 1));
        }
    }
}

/// Whether `import_path` names the file at `file_path`, ignoring a leading
/// `./` on the import and the extension of the file.
pub fn path_matches_import(import_path: &str, file_path: &str) -> (r: bool)
    ensures
        r == path_matches(import_path@, file_path@),
{
    let ip = chars_of(import_path);
    let fp = chars_of(file_path);
    if ip.len() == 0 || fp.len() == 0 {
        return false;
    }
    let mut i: usize = 0;
    assert(ip@.skip(0) =~= ip@);
    while ip.len() - i >= 2 && ip[i] == '.' && ip[i + 1] == '/'
        invariant
            i <= ip.len(),
            trim_dot_slash(ip@) == trim_dot_slash(ip@.skip(i as int)),
        decreases ip.len() - i,
    {
        assert(ip@.skip(i as int).skip(2) =~= ip@.skip(i as int + 2));
        i += 2;
    }
    let ghost clean = ip@.skip(i as int);
    assert(trim_dot_slash(ip@) == clean);
    let mut k: usize = fp.len();
    while k > 0 && fp[k - 1] != '.'
        invariant
            k <= fp.len(),
            forall|j: int| k <= j < fp.len() ==> fp@[j] != '.',
        decreases k,
    {
        k -= 1;
    }
    let end: usize = if k == 0 { fp.len() } else { k - 1 };
    proof {
        lemma_stem_at(fp@, k as int);
        assert(stem(fp@) =~= fp@.take(end as int));
    }
    let n = ip.len() - i;
    if n > end {
        return false;
    }
    let mut j: usize = 0;
    while j < n
        invariant
            j <= n,
            n == ip.len() - i,
            n <= end <= fp.len(),
            i <= ip.len(),
            clean == ip@.skip(i as int),
            trim_dot_slash(ip@) == clean,
            ip@ == import_path@,
            fp@ == file_path@,
            ip@.len() > 0,
            fp@.len() > 0,
            stem(fp@) =~= fp@.take(end as int),
            forall|t: int| 0 <= t < j ==> #[trigger] stem(fp@).skip(end - n)[t] == clean[t],
        decreases n - j,
    {
        if fp[end - n + j] != ip[i + j] {
            assert(stem(fp@).skip(end - n)[j as int] != clean[j as int]);
            return false;
        }
        assert(stem(fp@).skip(end - n)[j as int] == clean[j as int]);
        j += 1;
    }
    assert(stem(fp@).skip(end - n) =~= clean);
    true
}

// ---------------------------------------------------------------------------
// Confidence of one candidate
// ---------------------------------------------------------------------------

/// Least confidence, exclusive, at which a resolution is accepted.
pub const MIN_ACCEPTANCE_CONFIDENCE: u32 = 30;

/// Whether a reference of this edge kind naturally points at a symbol of this
/// kind (calls at functions, type references at types, and so on).
pub open spec fn kinds_agree(edge_kind: Seq<char>, node_kind: Seq<char>) -> bool {
    ||| edge_kind == "calls"@ && (node_kind == "function"@ || node_kind == "method"@)
    ||| edge_kind == "type_ref"@ && (node_kind == "struct"@ || node_kind == "class"@
        || node_kind == "trait"@ || node_kind == "interface"@ || node_kind == "type_alias"@
        || node_kind == "enum"@)
    ||| edge_kind == "implements"@ && (node_kind == "trait"@ || node_kind == "interface"@)
    ||| edge_kind == "extends"@ && (node_kind == "class"@ || node_kind == "struct"@)
}

/// `base` plus five when the kinds agree, capped at 99.
pub open spec fn with_type_preference(base: nat, edge_kind: Seq<char>, node_kind: Seq<char>) -> nat {
    let raised = if kinds_agree(edge_kind, node_kind) {
        base + 5
    } else {
        base
    };
    if raised > 99 {
        99
    } else {
        raised
    }
}

/// Adds the small bonus for a reference whose edge kind fits the candidate's
/// symbol kind; confidences are in hundredths and never exceed 99.
pub fn apply_type_preference(base_confidence: u32, edge_kind: &str, node_kind: &str) -> (r: u32)
    ensures
        r == with_type_preference(base_confidence as nat, edge_kind@, node_kind@),
{
    let e = chars_of(edge_kind);
    let n = chars_of(node_kind);
    let agree = if eq_str(&e, "calls") {
        eq_str(&n, "function") || eq_str(&n, "method")
    } else if eq_str(&e, "type_ref") {
        eq_str(&n, "struct") || eq_str(&n, "class") || eq_str(&n, "trait") || eq_str(
            &n,
            "interface",
        ) || eq_str(&n, "type_alias") || eq_str(&n, "enum")
    } else if eq_str(&e, "implements") {
        eq_str(&n, "trait") || eq_str(&n, "interface")
    } else if eq_str(&e, "extends") {
        eq_str(&n, "class") || eq_str(&n, "struct")
    } else {
        false
    };
    proof {
        reveal_strlit("calls");
        reveal_strlit("type_ref");
        reveal_strlit("implements");
        reveal_strlit("extends");
        assert("calls"@.len() == 5);
        assert("type_ref"@.len() == 8);
        assert("implements"@.len() == 10);
        assert("extends"@.len() == 7);
    }
    assert(agree == kinds_agree(edge_kind@, node_kind@));
    if base_confidence >= 99 {
        99
    } else if agree {
        if base_confidence + 5 > 99 {
            99
        } else {
            base_confidence + 5
        }
    } else {
        base_confidence
    }
}

/// Whether the source file has an import edge into the target file.
pub open spec fn imports_into(imports: Seq<ImportEdgeRecord>, source_file: i64, target_file: i64) -> bool {
    exists|i: int|
        0 <= i < imports.len() && (#[trigger] imports[i]).source_file_id == source_file
            && imports[i].target_file_id == target_file
}

/// The stored path of a file, or the empty path when it is unknown.
pub open spec fn path_of(paths: Map<i64, String>, file_id: i64) -> Seq<char> {
    if paths.contains_key(file_id) {
        paths[file_id]@
    } else {
        Seq::empty()
    }
}

/// What the surroundings say of a candidate: 85 when the source file imports
/// from the candidate's file, else 80 when the reference's import path names
/// that file, else `base`.
pub open spec fn scope_confidence(
    base: nat,
    candidate: CandidateNode,
    source_file: i64,
    import_path: Option<Seq<char>>,
    imports: Seq<ImportEdgeRecord>,
    paths: Map<i64, String>,
) -> nat {
    if imports_into(imports, source_file, candidate.file_id) {
        85
    } else if import_path matches Some(ip) && path_matches(ip, path_of(paths, candidate.file_id)) {
        80
    } else {
        base
    }
}

/// The full confidence in a candidate: its scope confidence with the type
/// preference applied.
pub open spec fn candidate_confidence(
    base: nat,
    candidate: CandidateNode,
    edge_kind: Seq<char>,
    source_file: i64,
    import_path: Option<Seq<char>>,
    imports: Seq<ImportEdgeRecord>,
    paths: Map<i64, String>,
) -> nat {
    with_type_preference(
        scope_confidence(base, candidate, source_file, import_path, imports, paths),
        edge_kind,
        candidate.kind@,
    )
}

pub open spec fn opt_view(o: Option<String>) -> Option<Seq<char>> {
    match o {
        Some(s) => Some(s@),
        None => None,
    }
}

fn imports_into_exec(imports: &[ImportEdgeRecord], source_file: i64, target_file: i64) -> (r: bool)
    ensures
        r == imports_into(imports@, source_file, target_file),
{
    let mut i: usize = 0;
    while i < imports.len()
        invariant
            i <= imports.len(),
            forall|j: int|
                0 <= j < i ==> !((#[trigger] imports@[j]).source_file_id == source_file
                    && imports@[j].target_file_id == target_file),
        decreases imports.len() - i,
    {
        if imports[i].source_file_id == source_file && imports[i].target_file_id == target_file {
            return true;
        }
        i += 1;
    }
    false
}

fn path_of_exec(paths: &HashMap<i64, String>, file_id: i64) -> (r: &str)
    ensures
        r@ == path_of(paths@, file_id),
{
    broadcast use vstd::std_specs::hash::group_hash_axioms;
    match paths.get(&file_id) {
        Some(p) => p.as_str(),
        None => {
            proof {
                reveal_strlit("");
            }
            ""
        },
    }
}

fn candidate_confidence_exec(
    base: u32,
    candidate: &CandidateNode,
    edge_kind: &str,
    source_file: i64,
    import_path: &Option<String>,
    imports: &[ImportEdgeRecord],
    paths: &HashMap<i64, String>,
) -> (r: u32)
    requires
        base <= 85,
    ensures
        r == candidate_confidence(
            base as nat,
            *candidate,
            edge_kind@,
            source_file,
            opt_view(*import_path),
            imports@,
            paths@,
        ),
{
    let mut conf = base;
    if imports_into_exec(imports, source_file, candidate.file_id) {
        conf = 85;
    } else {
        match import_path {
            Some(ip) => {
                if path_matches_import(ip.as_str(), path_of_exec(paths, candidate.file_id)) {
                    conf = 80;
                }
            },
            None => {},
        }
    }
    apply_type_preference(conf, edge_kind, candidate.kind.as_str())
}

// ---------------------------------------------------------------------------
// Picking a target
// ---------------------------------------------------------------------------

/// The first candidate of greatest confidence, with that confidence.
pub open spec fn best_candidate(cands: Seq<CandidateNode>, conf: spec_fn(CandidateNode) -> nat) -> Option<
    (i64, nat),
>
    decreases cands.len(),
{
    if cands.len() == 0 {
        None
    } else {
        let c = cands.last();
        match best_candidate(cands.drop_last(), conf) {
            None => Some((c.id, conf(c))),
            Some((id, b)) => if conf(c) > b {
                Some((c.id, conf(c)))
            } else {
                Some((id, b))
            },
        }
    }
}

/// The confidence of a candidate among several: name evidence alone gives 30.
pub open spec fn shared_confidence(
    edge_kind: Seq<char>,
    source_file: i64,
    import_path: Option<Seq<char>>,
    imports: Seq<ImportEdgeRecord>,
    paths: Map<i64, String>,
) -> spec_fn(CandidateNode) -> nat {
    |c: CandidateNode| candidate_confidence(30, c, edge_kind, source_file, import_path, imports, paths)
}

/// Scores each candidate (name evidence 30, raised by import evidence and the
/// type preference) and returns the first best one with its confidence.
pub fn disambiguate(
    candidates: &Vec<CandidateNode>,
    edge_kind: &str,
    source_file: i64,
    import_path: &Option<String>,
    imports: &[ImportEdgeRecord],
    paths: &HashMap<i64, String>,
) -> (r: Option<(i64, u32)>)
    ensures
        match r {
            None => best_candidate(
                candidates@,
                shared_confidence(edge_kind@, source_file, opt_view(*import_path), imports@, paths@),
            ) is None,
            Some((id, c)) => best_candidate(
                candidates@,
                shared_confidence(edge_kind@, source_file, opt_view(*import_path), imports@, paths@),
            ) == Some((id, c as nat)),
        },
{
    let ghost conf = shared_confidence(edge_kind@, source_file, opt_view(*import_path), imports@, paths@);
    let mut best: Option<(i64, u32)> = None;
    let mut i: usize = 0;
    while i < candidates.len()
        invariant
            i <= candidates@.len(),
            conf == shared_confidence(edge_kind@, source_file, opt_view(*import_path), imports@, paths@),
            match best {
                None => best_candidate(candidates@.take(i as int), conf) is None,
                Some((id, c)) => best_candidate(candidates@.take(i as int), conf) == Some((id, c as nat)),
            },
        decreases candidates.len() - i,
    {
        let c = &candidates[i];
        let k = candidate_confidence_exec(30, c, edge_kind, source_file, import_path, imports, paths);
        assert(candidates@.take(i as int + 1).drop_last() =~= candidates@.take(i as int));
        assert(conf(candidates@[i as int]) == k);
        match best {
            None => {
                best = Some((c.id, k));
            },
            Some((_, b)) => {
                if k > b {
                    best = Some((c.id, k));
                }
            },
        }
        i += 1;
    }
    assert(candidates@.take(candidates@.len() as int) =~= candidates@);
    best
}

/// The id of the last exported symbol with the given qualified name.
pub open spec fn qualified_target(exported: Seq<CandidateNode>, qname: Seq<char>) -> Option<i64>
    decreases exported.len(),
{
    if exported.len() == 0 {
        None
    } else if exported.last().qualified_name matches Some(q) && q@ == qname {
        Some(exported.last().id)
    } else {
        qualified_target(exported.drop_last(), qname)
    }
}

/// The exported symbols of the referenced name that live in another file, in
/// order.
pub open spec fn name_candidates(exported: Seq<CandidateNode>, name: Seq<char>, source_file: i64) -> Seq<
    CandidateNode,
> {
    exported.filter(|c: CandidateNode| c.name@ == name && c.file_id != source_file)
}

/// An unresolved reference as loaded for resolution, with its source file.
#[derive(Debug, Clone)]
pub struct PendingRef {
    pub id: i64,
    pub source_node_id: i64,
    pub target_name: String,
    pub target_qualified_name: Option<String>,
    pub edge_kind: String,
    pub context: Option<String>,
    pub import_path: Option<String>,
    pub source_file_id: i64,
}

/// A reference tied to its target: the edge to store, and the reference to
/// drop.
#[derive(Debug, Clone)]
pub struct Resolution {
    pub ref_id: i64,
    pub source_node_id: i64,
    pub target_node_id: i64,
    pub edge_kind: String,
    /// In hundredths.
    pub confidence: u32,
    pub context: Option<String>,
}

/// The target and confidence chosen for one reference, if any is accepted:
/// a qualified-name match gives 95; otherwise the same-named exported symbols
/// of other files are weighed, a lone one from a base of 50 and several from
/// a base of 30, and the choice stands when its confidence exceeds 30.
pub open spec fn choose_target(
    r: PendingRef,
    exported: Seq<CandidateNode>,
    imports: Seq<ImportEdgeRecord>,
    paths: Map<i64, String>,
) -> Option<(i64, nat)> {
    let qualified = match r.target_qualified_name {
        Some(q) => qualified_target(exported, q@),
        None => None,
    };
    let cands = name_candidates(exported, r.target_name@, r.source_file_id);
    let ip = opt_view(r.import_path);
    if qualified is Some {
        Some((qualified->0, 95))
    } else if cands.len() == 0 {
        None
    } else if cands.len() == 1 {
        let k = candidate_confidence(50, cands[0], r.edge_kind@, r.source_file_id, ip, imports, paths);
        if k > MIN_ACCEPTANCE_CONFIDENCE {
            Some((cands[0].id, k))
        } else {
            None
        }
    } else {
        match best_candidate(cands, shared_confidence(r.edge_kind@, r.source_file_id, ip, imports, paths)) {
            Some((id, k)) => if k > MIN_ACCEPTANCE_CONFIDENCE {
                Some((id, k))
            } else {
                None
            },
            None => None,
        }
    }
}

pub type ResolutionView = (i64, i64, i64, Seq<char>, nat, Option<Seq<char>>);

pub open spec fn resolution_view(x: Resolution) -> ResolutionView {
    (x.ref_id, x.source_node_id, x.target_node_id, x.edge_kind@, x.confidence as nat, opt_view(x.context))
}

/// The resolutions of the references, in order, skipping those left open.
pub open spec fn resolutions(
    refs: Seq<PendingRef>,
    exported: Seq<CandidateNode>,
    imports: Seq<ImportEdgeRecord>,
    paths: Map<i64, String>,
) -> Seq<ResolutionView>
    decreases refs.len(),
{
    if refs.len() == 0 {
        Seq::empty()
    } else {
        let r = refs.last();
        let rest = resolutions(refs.drop_last(), exported, imports, paths);
        match choose_target(r, exported, imports, paths) {
            Some((t, k)) => rest.push((r.id, r.source_node_id, t, r.edge_kind@, k, opt_view(r.context))),
            None => rest,
        }
    }
}

fn clone_opt(o: &Option<String>) -> (r: Option<String>)
    ensures
        r == *o,
{
    match o {
        Some(s) => Some(s.clone()),
        None => None,
    }
}

fn qualified_target_exec(exported: &[CandidateNode], qname: &String) -> (r: Option<i64>)
    ensures
        r == qualified_target(exported@, qname@),
{
    let mut k: usize = exported.len();
    assert(exported@.take(k as int) =~= exported@);
    while k > 0
        invariant
            k <= exported@.len(),
            qualified_target(exported@, qname@) == qualified_target(exported@.take(k as int), qname@),
        decreases k,
    {
        let c = &exported[k - 1];
        assert(exported@.take(k as int).drop_last() =~= exported@.take(k - 1));
        match &c.qualified_name {
            Some(q) => {
                if *q == *qname {
                    return Some(c.id);
                }
            },
            None => {},
        }
        k -= 1;
    }
    None
}

fn name_candidates_exec(exported: &[CandidateNode], name: &String, source_file: i64) -> (r: Vec<
    CandidateNode,
>)
    ensures
        r@ == name_candidates(exported@, name@, source_file),
{
    let ghost keep = |c: CandidateNode| c.name@ == name@ && c.file_id != source_file;
    let mut out: Vec<CandidateNode> = Vec::new();
    let mut i: usize = 0;
    while i < exported.len()
        invariant
            i <= exported@.len(),
            keep == (|c: CandidateNode| c.name@ == name@ && c.file_id != source_file),
            out@ == exported@.take(i as int).filter(keep),
        decreases exported.len() - i,
    {
        let c = &exported[i];
        assert(exported@.take(i as int + 1).drop_last() =~= exported@.take(i as int));
        proof {
            assert(exported@.take(i as int + 1) =~= exported@.take(i as int).push(exported@[i as int]));
            exported@.take(i as int).lemma_filter_push(exported@[i as int], keep);
        }
        assert(keep(*c) == (c.name@ == name@ && c.file_id != source_file));
        if c.name == *name && c.file_id != source_file {
            let copy = CandidateNode {
                id: c.id,
                file_id: c.file_id,
                kind: c.kind.clone(),
                name: c.name.clone(),
                qualified_name: clone_opt(&c.qualified_name),
                signature: clone_opt(&c.signature),
            };
            assert(copy == *c);
            out.push(copy);
        }
        i += 1;
    }
    assert(exported@.take(exported@.len() as int) =~= exported@);
    out
}

/// Ties each reference to a target where the evidence suffices; the result
/// lists, in the order of `refs`, the edges to create (each reference that
/// gets one is then resolved). Confidences are in hundredths.
pub fn plan_resolutions(
    refs: &[PendingRef],
    exported: &[CandidateNode],
    imports: &[ImportEdgeRecord],
    paths: &HashMap<i64, String>,
) -> (r: Vec<Resolution>)
    ensures
        r@.map_values(|x: Resolution| resolution_view(x)) == resolutions(refs@, exported@, imports@, paths@),
{
    let mut out: Vec<Resolution> = Vec::new();
    let mut i: usize = 0;
    while i < refs.len()
        invariant
            i <= refs@.len(),
            out@.map_values(|x: Resolution| resolution_view(x)) == resolutions(
                refs@.take(i as int),
                exported@,
                imports@,
                paths@,
            ),
        decreases refs.len() - i,
    {
        let r = &refs[i];
        assert(refs@.take(i as int + 1).drop_last() =~= refs@.take(i as int));
        let chosen = choose_target_exec(r, exported, imports, paths);
        let ghost before = out@.map_values(|x: Resolution| resolution_view(x));
        match chosen {
            Some((t, k)) => {
                let res = Resolution {
                    ref_id: r.id,
                    source_node_id: r.source_node_id,
                    target_node_id: t,
                    edge_kind: r.edge_kind.clone(),
                    confidence: k,
                    context: clone_opt(&r.context),
                };
                out.push(res);
                assert(out@.map_values(|x: Resolution| resolution_view(x)) =~= before.push(
                    resolution_view(res),
                ));
            },
            None => {},
        }
        i += 1;
    }
    assert(refs@.take(refs@.len() as int) =~= refs@);
    out
}

fn choose_target_exec(
    r: &PendingRef,
    exported: &[CandidateNode],
    imports: &[ImportEdgeRecord],
    paths: &HashMap<i64, String>,
) -> (c: Option<(i64, u32)>)
    ensures
        match c {
            None => choose_target(*r, exported@, imports@, paths@) is None,
            Some((t, k)) => choose_target(*r, exported@, imports@, paths@) == Some((t, k as nat)),
        },
{
    match &r.target_qualified_name {
        Some(q) => {
            match qualified_target_exec(exported, q) {
                Some(t) => {
                    return Some((t, 95));
                },
                None => {},
            }
        },
        None => {},
    }
    let cands = name_candidates_exec(exported, &r.target_name, r.source_file_id);
    if cands.len() == 0 {
        return None;
    }
    if cands.len() == 1 {
        let k = candidate_confidence_exec(
            50,
            &cands[0],
            r.edge_kind.as_str(),
            r.source_file_id,
            &r.import_path,
            imports,
            paths,
        );
        if k > MIN_ACCEPTANCE_CONFIDENCE {
            return Some((cands[0].id, k));
        }
        return None;
    }
    match disambiguate(&cands, r.edge_kind.as_str(), r.source_file_id, &r.import_path, imports, paths) {
        Some((t, k)) => {
            if k > MIN_ACCEPTANCE_CONFIDENCE {
                Some((t, k))
            } else {
                None
            }
        },
        None => None,
    }
}

/// Every accepted resolution has a confidence above the acceptance threshold
/// and below certainty: strictly between 30 and 100 hundredths.
pub proof fn lemma_resolutions_confident(
    refs: Seq<PendingRef>,
    exported: Seq<CandidateNode>,
    imports: Seq<ImportEdgeRecord>,
    paths: Map<i64, String>,
)
    ensures
        forall|i: int|
            0 <= i < resolutions(refs, exported, imports, paths).len() ==> {
                let k = #[trigger] resolutions(refs, exported, imports, paths)[i].4;
                MIN_ACCEPTANCE_CONFIDENCE < k && k <= 99
            },
    decreases refs.len(),
{
    if refs.len() > 0 {
        lemma_resolutions_confident(refs.drop_last(), exported, imports, paths);
        let r = refs.last();
        let cands = name_candidates(exported, r.target_name@, r.source_file_id);
        let conf = shared_confidence(r.edge_kind@, r.source_file_id, opt_view(r.import_path), imports, paths);
        lemma_best_bounded(cands, conf);
        let ch = choose_target(r, exported, imports, paths);
        assert(ch matches Some((t, k)) ==> MIN_ACCEPTANCE_CONFIDENCE < k && k <= 99);
        let rest = resolutions(refs.drop_last(), exported, imports, paths);
        let all = resolutions(refs, exported, imports, paths);
        assert forall|i: int| 0 <= i < all.len() implies MIN_ACCEPTANCE_CONFIDENCE < #[trigger] all[i].4
            && all[i].4 <= 99 by {
            if i < rest.len() {
                assert(all[i] == rest[i]);
            }
        }
    }
}

proof fn lemma_best_bounded(cands: Seq<CandidateNode>, conf: spec_fn(CandidateNode) -> nat)
    requires
        forall|c: CandidateNode| #[trigger] conf(c) <= 99,
    ensures
        best_candidate(cands, conf) matches Some((_, b)) ==> b <= 99,
    decreases cands.len(),
{
    if cands.len() > 0 {
        lemma_best_bounded(cands.drop_last(), conf);
        assert(conf(cands.last()) <= 99);
    }
}

} // verus!
