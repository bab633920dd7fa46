//! What changed in a file's symbols between two index runs: symbols added,
//! removed, whose signature changed, or that were renamed in place.
use vstd::prelude::*;

use crate::types::NodeSummary;

verus! {

/// A symbol summary as plain values.
pub struct SummaryView {
    pub kind: Seq<char>,
    pub name: Seq<char>,
    pub sig: Option<Seq<char>>,
    pub ls: int,
    pub le: int,
}

pub open spec fn opt_view(o: Option<String>) -> Option<Seq<char>> {
    match o {
        Some(s) => Some(s@),
        None => None,
    }
}

pub open spec fn summary_view(n: NodeSummary) -> SummaryView {
    SummaryView {
        kind: n.kind@,
        name: n.name@,
        sig: opt_view(n.signature),
        ls: n.line_start as int,
        le: n.line_end as int,
    }
}

pub open spec fn summary_views(s: Seq<NodeSummary>) -> Seq<SummaryView> {
    s.map_values(|n: NodeSummary| summary_view(n))
}

/// The index of the first entry of `f`, at or after `i`, with the given kind
/// and name; `-1` when there is none.
pub open spec fn key_index_from(f: Seq<SummaryView>, kind: Seq<char>, name: Seq<char>, i: int) -> int
    decreases f.len() - i,
{
    if i < 0 || i >= f.len() {
        -1
    } else if f[i].kind == kind && f[i].name == name {
        i
    } else {
        key_index_from(f, kind, name, i + 1)
    }
}

pub open spec fn key_index(f: Seq<SummaryView>, kind: Seq<char>, name: Seq<char>) -> int {
    key_index_from(f, kind, name, 0)
}

/// The first entry of each (kind, name) key, in order of first appearance.
pub open spec fn firsts(s: Seq<SummaryView>) -> Seq<SummaryView>
    decreases s.len(),
{
    if s.len() == 0 {
        seq![]
    } else {
        let f = firsts(s.drop_last());
        if key_index(f, s.last().kind, s.last().name) >= 0 {
            f
        } else {
            f.push(s.last())
        }
    }
}

/// An old symbol at index `i` may be taken as the previous name of the new
/// symbol `n`: same kind, another name, not taken yet, its key gone from the
/// new version, and starting within five lines of `n`.
pub open spec fn rename_fits(
    of: Seq<SummaryView>,
    nf: Seq<SummaryView>,
    used: Set<int>,
    n: SummaryView,
    i: int,
) -> bool {
    &&& of[i].kind == n.kind
    &&& of[i].name != n.name
    &&& !used.contains(i)
    &&& key_index(nf, of[i].kind, of[i].name) < 0
    &&& -5 <= of[i].ls - n.ls <= 5
}

/// The first old symbol, at or after `i`, that fits as a rename of `n`; `-1`
/// when there is none.
pub open spec fn rename_pick(
    of: Seq<SummaryView>,
    nf: Seq<SummaryView>,
    used: Set<int>,
    n: SummaryView,
    i: int,
) -> int
    decreases of.len() - i,
{
    if i < 0 || i >= of.len() {
        -1
    } else if rename_fits(of, nf, used, n, i) {
        i
    } else {
        rename_pick(of, nf, used, n, i + 1)
    }
}

pub struct AddedView {
    pub kind: Seq<char>,
    pub name: Seq<char>,
    pub ls: int,
    pub le: int,
}

pub struct ModifiedView {
    pub kind: Seq<char>,
    pub name: Seq<char>,
    pub old_sig: Option<Seq<char>>,
    pub new_sig: Option<Seq<char>>,
}

pub struct RenamedView {
    pub kind: Seq<char>,
    pub old_name: Seq<char>,
    pub new_name: Seq<char>,
    pub ls: int,
}

pub struct DiffState {
    pub added: Seq<AddedView>,
    pub modified: Seq<ModifiedView>,
    pub renamed: Seq<RenamedView>,
    pub used: Set<int>,
}

/// The classification of the first `j` new keys: a key present before is
/// modified when the signatures of the first entries differ; a key absent
/// before is a rename of the first fitting old symbol, if any, and otherwise
/// an addition.
pub open spec fn diff_fold(of: Seq<SummaryView>, nf: Seq<SummaryView>, j: nat) -> DiffState
    decreases j,
{
    if j == 0 || j > nf.len() {
        DiffState { added: seq![], modified: seq![], renamed: seq![], used: Set::empty() }
    } else {
        let st = diff_fold(of, nf, (j - 1) as nat);
        let n = nf[j - 1];
        let oi = key_index(of, n.kind, n.name);
        if oi >= 0 {
            if of[oi].sig != n.sig {
                DiffState {
                    modified: st.modified.push(
                        ModifiedView { kind: n.kind, name: n.name, old_sig: of[oi].sig, new_sig: n.sig },
                    ),
                    ..st
                }
            } else {
                st
            }
        } else {
            let p = rename_pick(of, nf, st.used, n, 0);
            if p >= 0 {
                DiffState {
                    renamed: st.renamed.push(
                        RenamedView { kind: n.kind, old_name: of[p].name, new_name: n.name, ls: n.ls },
                    ),
                    used: st.used.insert(p),
                    ..st
                }
            } else {
                DiffState {
                    added: st.added.push(AddedView { kind: n.kind, name: n.name, ls: n.ls, le: n.le }),
                    ..st
                }
            }
        }
    }
}

/// The old keys among the first `i` that are gone and were not renamed.
pub open spec fn removed_upto(of: Seq<SummaryView>, nf: Seq<SummaryView>, used: Set<int>, i: nat) -> Seq<AddedView>
    decreases i,
{
    if i == 0 || i > of.len() {
        seq![]
    } else {
        let r = removed_upto(of, nf, used, (i - 1) as nat);
        let o = of[i - 1];
        if key_index(nf, o.kind, o.name) < 0 && !used.contains(i - 1) {
            r.push(AddedView { kind: o.kind, name: o.name, ls: o.ls, le: o.le })
        } else {
            r
        }
    }
}

/// One symbol that appeared or disappeared.
#[derive(Debug, Clone)]
pub struct NodeDiff {
    pub kind: String,
    pub name: String,
    pub qualified_name: Option<String>,
    pub line_start: i64,
    pub line_end: i64,
}

/// One symbol whose signature changed.
#[derive(Debug, Clone)]
pub struct NodeModification {
    pub kind: String,
    pub name: String,
    pub old_signature: Option<String>,
    pub new_signature: Option<String>,
}

/// One symbol that kept its kind and place but changed its name.
#[derive(Debug, Clone)]
pub struct NodeRename {
    pub kind: String,
    pub old_name: String,
    pub new_name: String,
    pub line_start: i64,
}

/// The symbol-level changes of one file.
#[derive(Debug, Clone)]
pub struct StructuralChange {
    pub file_path: String,
    pub added_nodes: Vec<NodeDiff>,
    pub removed_nodes: Vec<NodeDiff>,
    pub modified_nodes: Vec<NodeModification>,
    pub renamed_nodes: Vec<NodeRename>,
}

pub open spec fn diff_view(d: NodeDiff) -> AddedView {
    AddedView { kind: d.kind@, name: d.name@, ls: d.line_start as int, le: d.line_end as int }
}

pub open spec fn mod_view(m: NodeModification) -> ModifiedView {
    ModifiedView {
        kind: m.kind@,
        name: m.name@,
        old_sig: opt_view(m.old_signature),
        new_sig: opt_view(m.new_signature),
    }
}

pub open spec fn rename_view(r: NodeRename) -> RenamedView {
    RenamedView {
        kind: r.kind@,
        old_name: r.old_name@,
        new_name: r.new_name@,
        ls: r.line_start as int,
    }
}

/// The structural diff of two versions of a file's symbols, as plain values.
pub open spec fn structural_diff(old_nodes: Seq<SummaryView>, new_nodes: Seq<SummaryView>) -> (
    Seq<AddedView>,
    Seq<AddedView>,
    Seq<ModifiedView>,
    Seq<RenamedView>,
) {
    let of = firsts(old_nodes);
    let nf = firsts(new_nodes);
    let st = diff_fold(of, nf, nf.len());
    (st.added, removed_upto(of, nf, st.used, of.len()), st.modified, st.renamed)
}

pub proof fn lemma_key_index_from(f: Seq<SummaryView>, kind: Seq<char>, name: Seq<char>, i: int)
    requires
        0 <= i,
    ensures
        key_index_from(f, kind, name, i) >= 0 ==> {
            let r = key_index_from(f, kind, name, i);
            &&& i <= r < f.len()
            &&& f[r].kind == kind
            &&& f[r].name == name
        },
        forall|t: int|
            i <= t < f.len() && f[t].kind == kind && f[t].name == name ==> 0 <= key_index_from(
                f,
                kind,
                name,
                i,
            ) <= t,
    decreases f.len() - i,
{
    if i < f.len() {
        lemma_key_index_from(f, kind, name, i + 1);
    }
}

pub proof fn lemma_firsts_unique(s: Seq<SummaryView>)
    ensures
        forall|a: int, b: int|
            0 <= a < b < firsts(s).len() ==> !(firsts(s)[a].kind == firsts(s)[b].kind
                && firsts(s)[a].name == firsts(s)[b].name),
    decreases s.len(),
{
    if s.len() > 0 {
        let f = firsts(s.drop_last());
        lemma_firsts_unique(s.drop_last());
        lemma_key_index_from(f, s.last().kind, s.last().name, 0);
        if key_index(f, s.last().kind, s.last().name) < 0 {
            let g = f.push(s.last());
            assert forall|a: int, b: int| 0 <= a < b < g.len() implies !(g[a].kind == g[b].kind
                && g[a].name == g[b].name) by {
                if b == g.len() - 1 {
                    assert(g[a] == f[a]);
                } else {
                    assert(g[a] == f[a] && g[b] == f[b]);
                }
            }
        }
    }
}

/// Within a list of first entries, each entry is the first one of its key.
pub proof fn lemma_firsts_self_index(s: Seq<SummaryView>, j: int)
    requires
        0 <= j < firsts(s).len(),
    ensures
        key_index(firsts(s), firsts(s)[j].kind, firsts(s)[j].name) == j,
{
    let f = firsts(s);
    lemma_firsts_unique(s);
    lemma_key_index_from(f, f[j].kind, f[j].name, 0);
}

pub proof fn lemma_fold_same_empty(s: Seq<SummaryView>, j: nat)
    requires
        j <= firsts(s).len(),
    ensures
        diff_fold(firsts(s), firsts(s), j) == (DiffState {
            added: seq![],
            modified: seq![],
            renamed: seq![],
            used: Set::empty(),
        }),
    decreases j,
{
    if j > 0 {
        lemma_fold_same_empty(s, (j - 1) as nat);
        lemma_firsts_self_index(s, j - 1);
    }
}

pub proof fn lemma_removed_same_empty(s: Seq<SummaryView>, i: nat)
    requires
        i <= firsts(s).len(),
    ensures
        removed_upto(firsts(s), firsts(s), Set::empty(), i) == Seq::<AddedView>::empty(),
    decreases i,
{
    if i > 0 {
        lemma_removed_same_empty(s, (i - 1) as nat);
        lemma_firsts_self_index(s, i - 1);
    }
}

/// Comparing a file's symbols with themselves reports no change at all.
pub proof fn lemma_structural_diff_of_same_is_empty(s: Seq<SummaryView>)
    ensures
        structural_diff(s, s).0.len() == 0,
        structural_diff(s, s).1.len() == 0,
        structural_diff(s, s).2.len() == 0,
        structural_diff(s, s).3.len() == 0,
{
    lemma_fold_same_empty(s, firsts(s).len());
    lemma_removed_same_empty(s, firsts(s).len());
}

/// The first entries of each key agree: every key of the new version is a
/// key of the old one with the same (first) signature, and every key of the
/// old version is a key of the new one.
pub open spec fn same_symbols(old_nodes: Seq<SummaryView>, new_nodes: Seq<SummaryView>) -> bool {
    let of = firsts(old_nodes);
    let nf = firsts(new_nodes);
    &&& forall|i: int|
        0 <= i < nf.len() ==> key_index(of, #[trigger] nf[i].kind, nf[i].name) >= 0 && of[key_index(
            of,
            nf[i].kind,
            nf[i].name,
        )].sig == nf[i].sig
    &&& forall|i: int| 0 <= i < of.len() ==> key_index(nf, #[trigger] of[i].kind, of[i].name) >= 0
}

proof fn lemma_fold_empty_iff(of: Seq<SummaryView>, nf: Seq<SummaryView>, j: nat)
    requires
        j <= nf.len(),
    ensures
        ({
            let st = diff_fold(of, nf, j);
            (st.added.len() == 0 && st.modified.len() == 0 && st.renamed.len() == 0) <==> forall|i: int|
                0 <= i < j ==> key_index(of, #[trigger] nf[i].kind, nf[i].name) >= 0 && of[key_index(
                    of,
                    nf[i].kind,
                    nf[i].name,
                )].sig == nf[i].sig
        }),
        diff_fold(of, nf, j).renamed.len() == 0 ==> diff_fold(of, nf, j).used == Set::<int>::empty(),
    decreases j,
{
    if j > 0 {
        lemma_fold_empty_iff(of, nf, (j - 1) as nat);
        let st = diff_fold(of, nf, (j - 1) as nat);
        let n = nf[j - 1];
        let oi = key_index(of, n.kind, n.name);
        let good = forall|i: int|
            0 <= i < j - 1 ==> key_index(of, #[trigger] nf[i].kind, nf[i].name) >= 0 && of[key_index(
                of,
                nf[i].kind,
                nf[i].name,
            )].sig == nf[i].sig;
        let good_j = forall|i: int|
            0 <= i < j ==> key_index(of, #[trigger] nf[i].kind, nf[i].name) >= 0 && of[key_index(
                of,
                nf[i].kind,
                nf[i].name,
            )].sig == nf[i].sig;
        assert(good_j == (good && oi >= 0 && of[oi].sig == n.sig)) by {
            if good && oi >= 0 && of[oi].sig == n.sig {
                assert forall|i: int| 0 <= i < j implies key_index(of, #[trigger] nf[i].kind, nf[i].name)
                    >= 0 && of[key_index(of, nf[i].kind, nf[i].name)].sig == nf[i].sig by {
                    if i < j - 1 {
                    }
                }
            }
            if good_j {
                assert(key_index(of, nf[j - 1].kind, nf[j - 1].name) >= 0);
            }
        }
    }
}

proof fn lemma_removed_empty_iff(of: Seq<SummaryView>, nf: Seq<SummaryView>, i: nat)
    requires
        i <= of.len(),
    ensures
        removed_upto(of, nf, Set::empty(), i).len() == 0 <==> forall|t: int|
            0 <= t < i ==> key_index(nf, #[trigger] of[t].kind, of[t].name) >= 0,
    decreases i,
{
    if i > 0 {
        lemma_removed_empty_iff(of, nf, (i - 1) as nat);
        let good_i = forall|t: int| 0 <= t < i ==> key_index(nf, #[trigger] of[t].kind, of[t].name) >= 0;
        if good_i {
            assert(key_index(nf, of[i - 1].kind, of[i - 1].name) >= 0);
        }
    }
}

/// A structural diff is empty exactly when both versions have the same
/// symbol keys (kind and name) with the same first signatures.
pub proof fn lemma_structural_diff_empty_iff(old_nodes: Seq<SummaryView>, new_nodes: Seq<SummaryView>)
    ensures
        ({
            let d = structural_diff(old_nodes, new_nodes);
            d.0.len() == 0 && d.1.len() == 0 && d.2.len() == 0 && d.3.len() == 0
        }) <==> same_symbols(old_nodes, new_nodes),
{
    let of = firsts(old_nodes);
    let nf = firsts(new_nodes);
    lemma_fold_empty_iff(of, nf, nf.len());
    let st = diff_fold(of, nf, nf.len());
    lemma_removed_empty_iff(of, nf, of.len());
    if st.renamed.len() == 0 {
        assert(st.used == Set::<int>::empty());
    }
}

impl StructuralChange {
    /// Whether nothing changed.
    pub fn is_empty(&self) -> (r: bool)
        ensures
            r == (self.added_nodes@.len() == 0 && self.removed_nodes@.len() == 0
                && self.modified_nodes@.len() == 0 && self.renamed_nodes@.len() == 0),
    {
        self.added_nodes.len() == 0 && self.removed_nodes.len() == 0 && self.modified_nodes.len()
            == 0 && self.renamed_nodes.len() == 0
    }
}

fn copy_string(s: &String) -> (r: String)
    ensures
        r@ == s@,
{
    s.clone()
}

fn copy_opt(o: &Option<String>) -> (r: Option<String>)
    ensures
        opt_view(r) == opt_view(*o),
{
    match o {
        Some(s) => Some(s.clone()),
        None => None,
    }
}

fn eq_opt(a: &Option<String>, b: &Option<String>) -> (r: bool)
    ensures
        r == (opt_view(*a) == opt_view(*b)),
{
    match (a, b) {
        (Some(x), Some(y)) => *x == *y,
        (None, None) => true,
        _ => false,
    }
}

fn copy_summary(n: &NodeSummary) -> (r: NodeSummary)
    ensures
        summary_view(r) == summary_view(*n),
{
    NodeSummary {
        kind: copy_string(&n.kind),
        name: copy_string(&n.name),
        signature: copy_opt(&n.signature),
        line_start: n.line_start,
        line_end: n.line_end,
    }
}

/// Index of the first entry of `f` with the given key, or `f.len()`.
fn find_key(f: &Vec<NodeSummary>, kind: &String, name: &String) -> (r: usize)
    ensures
        r <= f@.len(),
        key_index(summary_views(f@), kind@, name@) == if r < f@.len() {
            r as int
        } else {
            -1
        },
{
    let ghost fv = summary_views(f@);
    let mut i: usize = 0;
    while i < f.len()
        invariant
            i <= f@.len(),
            fv == summary_views(f@),
            key_index(fv, kind@, name@) == key_index_from(fv, kind@, name@, i as int),
        decreases f@.len() - i,
    {
        if f[i].kind == *kind && f[i].name == *name {
            return i;
        }
        i += 1;
    }
    i
}

/// The first entry of each key, in order of first appearance.
fn first_entries(s: &[NodeSummary]) -> (r: Vec<NodeSummary>)
    ensures
        summary_views(r@) == firsts(summary_views(s@)),
{
    let mut f: Vec<NodeSummary> = Vec::new();
    let mut i: usize = 0;
    while i < s.len()
        invariant
            i <= s@.len(),
            summary_views(f@) == firsts(summary_views(s@).take(i as int)),
        decreases s@.len() - i,
    {
        assert(summary_views(s@).take(i as int + 1).drop_last() =~= summary_views(s@).take(i as int));
        assert(summary_views(s@).take(i as int + 1).last() == summary_view(s@[i as int]));
        let k = find_key(&f, &s[i].kind, &s[i].name);
        if k == f.len() {
            let c = copy_summary(&s[i]);
            let ghost o = f@;
            f.push(c);
            assert(summary_views(f@) =~= summary_views(o).push(summary_view(c)));
        }
        i += 1;
    }
    assert(summary_views(s@).take(s@.len() as int) =~= summary_views(s@));
    f
}

/// The first old entry, at or after `from`, that fits as a rename of `n`.
fn pick_rename(
    of: &Vec<NodeSummary>,
    nf: &Vec<NodeSummary>,
    used: &Vec<bool>,
    n: &NodeSummary,
    Ghost(used_set): Ghost<Set<int>>,
) -> (r: usize)
    requires
        used@.len() == of@.len(),
        forall|i: int| 0 <= i < used@.len() ==> (used@[i] <==> used_set.contains(i)),
    ensures
        r <= of@.len(),
        rename_pick(summary_views(of@), summary_views(nf@), used_set, summary_view(*n), 0) == if r
            < of@.len() {
            r as int
        } else {
            -1
        },
{
    let ghost ov = summary_views(of@);
    let ghost nv = summary_views(nf@);
    let mut i: usize = 0;
    while i < of.len()
        invariant
            i <= of@.len(),
            ov == summary_views(of@),
            nv == summary_views(nf@),
            used@.len() == of@.len(),
            forall|k: int| 0 <= k < used@.len() ==> (used@[k] <==> used_set.contains(k)),
            rename_pick(ov, nv, used_set, summary_view(*n), 0) == rename_pick(
                ov,
                nv,
                used_set,
                summary_view(*n),
                i as int,
            ),
        decreases of@.len() - i,
    {
        let o = &of[i];
        if o.kind == n.kind && !(o.name == n.name) && !used[i] {
            let k = find_key(nf, &o.kind, &o.name);
            if k == nf.len() {
                let d: i128 = o.line_start as i128 - n.line_start as i128;
                if -5 <= d && d <= 5 {
                    assert(rename_fits(ov, nv, used_set, summary_view(*n), i as int));
                    return i;
                }
            }
        }
        i += 1;
    }
    i
}

/// Computes the structural diff between the old and new symbol summaries of
/// a file. Symbols are matched by (kind, name), the first entry of each key
/// standing for it: a matched symbol whose signature changed is modified; a new
/// key with no old counterpart is a rename of the first old symbol of the same
/// kind whose key is gone, that is not taken yet and that starts within five
/// lines, and otherwise an addition; old keys that are gone and were not
/// renamed are removals. Keys are visited in order of first appearance.
pub fn compute_structural_diff(file_path: &str, old_nodes: &[NodeSummary], new_nodes: &[NodeSummary]) -> (r: StructuralChange)
    ensures
        r.file_path@ == file_path@,
        ({
            let d = structural_diff(summary_views(old_nodes@), summary_views(new_nodes@));
            &&& r.added_nodes@.map_values(|x: NodeDiff| diff_view(x)) == d.0
            &&& r.removed_nodes@.map_values(|x: NodeDiff| diff_view(x)) == d.1
            &&& r.modified_nodes@.map_values(|x: NodeModification| mod_view(x)) == d.2
            &&& r.renamed_nodes@.map_values(|x: NodeRename| rename_view(x)) == d.3
        }),
        forall|i: int| 0 <= i < r.added_nodes@.len() ==> (#[trigger] r.added_nodes@[i]).qualified_name is None,
        forall|i: int| 0 <= i < r.removed_nodes@.len() ==> (#[trigger] r.removed_nodes@[i]).qualified_name is None,
{
    let of = first_entries(old_nodes);
    let nf = first_entries(new_nodes);
    let ghost ov = summary_views(of@);
    let ghost nv = summary_views(nf@);
    let mut used: Vec<bool> = Vec::new();
    let mut u: usize = 0;
    while u < of.len()
        invariant
            u <= of@.len(),
            used@.len() == u,
            forall|k: int| 0 <= k < u ==> !used@[k],
        decreases of@.len() - u,
    {
        used.push(false);
        u += 1;
    }
    let mut added: Vec<NodeDiff> = Vec::new();
    let mut modified: Vec<NodeModification> = Vec::new();
    let mut renamed: Vec<NodeRename> = Vec::new();
    let mut j: usize = 0;
    while j < nf.len()
        invariant
            j <= nf@.len(),
            ov == summary_views(of@),
            nv == summary_views(nf@),
            used@.len() == of@.len(),
            forall|k: int| 0 <= k < used@.len() ==> (used@[k] <==> diff_fold(ov, nv, j as nat).used.contains(k)),
            added@.map_values(|x: NodeDiff| diff_view(x)) == diff_fold(ov, nv, j as nat).added,
            modified@.map_values(|x: NodeModification| mod_view(x)) == diff_fold(ov, nv, j as nat).modified,
            renamed@.map_values(|x: NodeRename| rename_view(x)) == diff_fold(ov, nv, j as nat).renamed,
            forall|i: int| 0 <= i < added@.len() ==> (#[trigger] added@[i]).qualified_name is None,
        decreases nf@.len() - j,
    {
        let n = &nf[j];
        let ghost st = diff_fold(ov, nv, j as nat);
        assert(nv[j as int] == summary_view(*n));
        let oi = find_key(&of, &n.kind, &n.name);
        if oi < of.len() {
            if !eq_opt(&of[oi].signature, &n.signature) {
                let m = NodeModification {
                    kind: copy_string(&n.kind),
                    name: copy_string(&n.name),
                    old_signature: copy_opt(&of[oi].signature),
                    new_signature: copy_opt(&n.signature),
                };
                let ghost o = modified@;
                modified.push(m);
                assert(modified@.map_values(|x: NodeModification| mod_view(x)) =~= o.map_values(|x: NodeModification| mod_view(x)).push(mod_view(m)));
            }
        } else {
            let p = pick_rename(&of, &nf, &used, n, Ghost(st.used));
            if p < of.len() {
                let rn = NodeRename {
                    kind: copy_string(&n.kind),
                    old_name: copy_string(&of[p].name),
                    new_name: copy_string(&n.name),
                    line_start: n.line_start,
                };
                let ghost o = renamed@;
                renamed.push(rn);
                assert(renamed@.map_values(|x: NodeRename| rename_view(x)) =~= o.map_values(|x: NodeRename| rename_view(x)).push(rename_view(rn)));
                used.set(p, true);
            } else {
                let a = NodeDiff {
                    kind: copy_string(&n.kind),
                    name: copy_string(&n.name),
                    qualified_name: None,
                    line_start: n.line_start,
                    line_end: n.line_end,
                };
                let ghost o = added@;
                added.push(a);
                assert(added@.map_values(|x: NodeDiff| diff_view(x)) =~= o.map_values(|x: NodeDiff| diff_view(x)).push(diff_view(a)));
            }
        }
        j += 1;
    }
    let ghost fin = diff_fold(ov, nv, nf@.len() as nat);
    let mut removed: Vec<NodeDiff> = Vec::new();
    let mut i: usize = 0;
    while i < of.len()
        invariant
            i <= of@.len(),
            ov == summary_views(of@),
            nv == summary_views(nf@),
            used@.len() == of@.len(),
            forall|k: int| 0 <= k < used@.len() ==> (used@[k] <==> fin.used.contains(k)),
            removed@.map_values(|x: NodeDiff| diff_view(x)) == removed_upto(ov, nv, fin.used, i as nat),
            forall|t: int| 0 <= t < removed@.len() ==> (#[trigger] removed@[t]).qualified_name is None,
        decreases of@.len() - i,
    {
        let o = &of[i];
        assert(ov[i as int] == summary_view(*o));
        let k = find_key(&nf, &o.kind, &o.name);
        if k == nf.len() && !used[i] {
            let a = NodeDiff {
                kind: copy_string(&o.kind),
                name: copy_string(&o.name),
                qualified_name: None,
                line_start: o.line_start,
                line_end: o.line_end,
            };
            let ghost old_r = removed@;
            removed.push(a);
            assert(removed@.map_values(|x: NodeDiff| diff_view(x)) =~= old_r.map_values(|x: NodeDiff| diff_view(x)).push(diff_view(a)));
        }
        i += 1;
    }
    let fp = crate::text::chars_of(file_path);
    StructuralChange {
        file_path: crate::text::string_of(&fp),
        added_nodes: added,
        removed_nodes: removed,
        modified_nodes: modified,
        renamed_nodes: renamed,
    }
}


proof fn lemma_rename_pick(of: Seq<SummaryView>, nf: Seq<SummaryView>, used: Set<int>, n: SummaryView, i: int)
    requires
        0 <= i,
    ensures
        rename_pick(of, nf, used, n, i) >= 0 ==> {
            let p = rename_pick(of, nf, used, n, i);
            i <= p < of.len() && rename_fits(of, nf, used, n, p)
        },
    decreases of.len() - i,
{
    if i < of.len() && !rename_fits(of, nf, used, n, i) {
        lemma_rename_pick(of, nf, used, n, i + 1);
    }
}

proof fn lemma_firsts_from(s: Seq<SummaryView>)
    ensures
        forall|i: int| 0 <= i < firsts(s).len() ==> exists|j: int| 0 <= j < s.len() && s[j] == #[trigger] firsts(s)[i],
    decreases s.len(),
{
    if s.len() > 0 {
        let p = s.drop_last();
        lemma_firsts_from(p);
        let f = firsts(p);
        assert forall|i: int| 0 <= i < firsts(s).len() implies exists|j: int| 0 <= j < s.len() && s[j]
            == #[trigger] firsts(s)[i] by {
            if i < f.len() {
                assert(firsts(s)[i] == f[i]);
                let j = choose|j: int| 0 <= j < p.len() && p[j] == #[trigger] f[i];
                assert(s[j] == p[j]);
            } else {
                assert(firsts(s)[i] == s.last());
                assert(s[s.len() - 1] == s.last());
            }
        }
    }
}

/// Every rename in the first `j` new keys pairs an old and a new entry of
/// the same kind with different names, starting within five lines of each
/// other, the old key gone from the new version and the new key absent from
/// the old one.
proof fn lemma_fold_renames_same_kind(of: Seq<SummaryView>, nf: Seq<SummaryView>, j: nat)
    ensures
        forall|k: int|
            0 <= k < diff_fold(of, nf, j).renamed.len() ==> {
                let r = #[trigger] diff_fold(of, nf, j).renamed[k];
                &&& r.old_name != r.new_name
                &&& key_index(nf, r.kind, r.old_name) < 0
                &&& key_index(of, r.kind, r.new_name) < 0
                &&& exists|i: int|
                    0 <= i < of.len() && of[i].kind == r.kind && of[i].name == r.old_name && -5 <= of[i].ls - r.ls <= 5
                &&& exists|i: int| 0 <= i < nf.len() && nf[i].kind == r.kind && nf[i].name == r.new_name && nf[i].ls == r.ls
            },
    decreases j,
{
    if j > 0 && j <= nf.len() {
        lemma_fold_renames_same_kind(of, nf, (j - 1) as nat);
        let st = diff_fold(of, nf, (j - 1) as nat);
        let n = nf[j - 1];
        lemma_rename_pick(of, nf, st.used, n, 0);
        let cur = diff_fold(of, nf, j);
        assert forall|k: int| 0 <= k < cur.renamed.len() implies {
            let r = #[trigger] cur.renamed[k];
            &&& r.old_name != r.new_name
            &&& key_index(nf, r.kind, r.old_name) < 0
            &&& key_index(of, r.kind, r.new_name) < 0
            &&& exists|i: int|
                0 <= i < of.len() && of[i].kind == r.kind && of[i].name == r.old_name && -5 <= of[i].ls - r.ls <= 5
            &&& exists|i: int| 0 <= i < nf.len() && nf[i].kind == r.kind && nf[i].name == r.new_name && nf[i].ls == r.ls
        } by {
            if k < st.renamed.len() {
                assert(cur.renamed[k] == st.renamed[k]);
            } else {
                let p = rename_pick(of, nf, st.used, n, 0);
                assert(nf[j - 1] == n);
                assert(of[p].kind == n.kind && of[p].name == cur.renamed[k].old_name);
            }
        }
    }
}

/// Every key of a version has an entry among its first entries.
proof fn lemma_firsts_cover(s: Seq<SummaryView>)
    ensures
        forall|j: int| 0 <= j < s.len() ==> key_index(firsts(s), #[trigger] s[j].kind, s[j].name) >= 0,
    decreases s.len(),
{
    if s.len() > 0 {
        let p = s.drop_last();
        lemma_firsts_cover(p);
        let f = firsts(p);
        let g = firsts(s);
        assert(f.len() <= g.len());
        assert forall|t: int| 0 <= t < f.len() implies g[t] == f[t] by {}
        assert forall|j: int| 0 <= j < s.len() implies key_index(g, #[trigger] s[j].kind, s[j].name) >= 0 by {
            let (kd, nm) = (s[j].kind, s[j].name);
            if j < s.len() - 1 {
                assert(s[j] == p[j]);
                lemma_key_index_from(f, kd, nm, 0);
                let t = key_index(f, kd, nm);
                lemma_key_index_from(g, kd, nm, 0);
                assert(g[t] == f[t]);
            } else {
                lemma_key_index_from(f, kd, nm, 0);
                lemma_key_index_from(g, kd, nm, 0);
                if key_index(f, kd, nm) >= 0 {
                    let t = key_index(f, kd, nm);
                    assert(g[t] == f[t]);
                } else {
                    assert(g[g.len() - 1] == s.last());
                }
            }
        }
    }
}

/// A reported rename always pairs a symbol of the old version and a symbol
/// of the new version of the same kind, under different names, starting
/// within five lines of each other (the rename's line is the new symbol's);
/// the old name is gone from the new version and the new name was not in the
/// old one, for that kind.
pub proof fn lemma_renames_keep_kind(old_nodes: Seq<SummaryView>, new_nodes: Seq<SummaryView>)
    ensures
        forall|k: int|
            0 <= k < structural_diff(old_nodes, new_nodes).3.len() ==> {
                let r = #[trigger] structural_diff(old_nodes, new_nodes).3[k];
                &&& r.old_name != r.new_name
                &&& exists|i: int|
                    0 <= i < old_nodes.len() && old_nodes[i].kind == r.kind && old_nodes[i].name == r.old_name && -5
                        <= old_nodes[i].ls - r.ls <= 5
                &&& exists|i: int|
                    0 <= i < new_nodes.len() && new_nodes[i].kind == r.kind && new_nodes[i].name == r.new_name
                        && new_nodes[i].ls == r.ls
                &&& forall|i: int|
                    0 <= i < new_nodes.len() ==> !(#[trigger] new_nodes[i].kind == r.kind && new_nodes[i].name == r.old_name)
                &&& forall|i: int|
                    0 <= i < old_nodes.len() ==> !(#[trigger] old_nodes[i].kind == r.kind && old_nodes[i].name == r.new_name)
            },
{
    let of = firsts(old_nodes);
    let nf = firsts(new_nodes);
    lemma_fold_renames_same_kind(of, nf, nf.len());
    lemma_firsts_from(old_nodes);
    lemma_firsts_from(new_nodes);
    lemma_firsts_cover(old_nodes);
    lemma_firsts_cover(new_nodes);
    let d = structural_diff(old_nodes, new_nodes);
    assert forall|k: int| 0 <= k < d.3.len() implies {
        let r = #[trigger] d.3[k];
        &&& r.old_name != r.new_name
        &&& exists|i: int|
            0 <= i < old_nodes.len() && old_nodes[i].kind == r.kind && old_nodes[i].name == r.old_name && -5
                <= old_nodes[i].ls - r.ls <= 5
        &&& exists|i: int|
            0 <= i < new_nodes.len() && new_nodes[i].kind == r.kind && new_nodes[i].name == r.new_name
                && new_nodes[i].ls == r.ls
        &&& forall|i: int|
            0 <= i < new_nodes.len() ==> !(#[trigger] new_nodes[i].kind == r.kind && new_nodes[i].name == r.old_name)
        &&& forall|i: int|
            0 <= i < old_nodes.len() ==> !(#[trigger] old_nodes[i].kind == r.kind && old_nodes[i].name == r.new_name)
    } by {
        let r = d.3[k];
        let a = choose|i: int|
            0 <= i < of.len() && of[i].kind == r.kind && of[i].name == r.old_name && -5 <= of[i].ls - r.ls <= 5;
        let b = choose|i: int| 0 <= i < nf.len() && nf[i].kind == r.kind && nf[i].name == r.new_name && nf[i].ls == r.ls;
        let ja = choose|j: int| 0 <= j < old_nodes.len() && old_nodes[j] == #[trigger] of[a];
        let jb = choose|j: int| 0 <= j < new_nodes.len() && new_nodes[j] == #[trigger] nf[b];
        assert(old_nodes[ja].kind == r.kind && old_nodes[ja].name == r.old_name);
        assert(new_nodes[jb].kind == r.kind && new_nodes[jb].name == r.new_name);
        assert forall|i: int| 0 <= i < new_nodes.len() implies !(#[trigger] new_nodes[i].kind == r.kind
            && new_nodes[i].name == r.old_name) by {
            if new_nodes[i].kind == r.kind && new_nodes[i].name == r.old_name {
                assert(key_index(nf, new_nodes[i].kind, new_nodes[i].name) >= 0);
            }
        }
        assert forall|i: int| 0 <= i < old_nodes.len() implies !(#[trigger] old_nodes[i].kind == r.kind
            && old_nodes[i].name == r.new_name) by {
            if old_nodes[i].kind == r.kind && old_nodes[i].name == r.new_name {
                assert(key_index(of, old_nodes[i].kind, old_nodes[i].name) >= 0);
            }
        }
    }
}

} // verus!
