//! Workspace configuration and the path rules built on it.
use vstd::prelude::*;

use crate::text::{chars_of, copy_chars, eq_chars, pieces, string_of, views};
use crate::types::DetailLevel;

verus! {

/// How to start a language server.
#[derive(Debug, Clone)]
pub struct LspServerConfig {
    pub command: String,
    pub args: Vec<String>,
}

/// The workspace configuration (`.bexp/config.toml`); every field has a
/// default.
#[allow(non_camel_case_types)]
#[derive(Debug, Clone)]
pub struct bexpConfig {
    pub token_budget: usize,
    pub default_skeleton_level: DetailLevel,
    pub exclude_patterns: Vec<String>,
    pub db_path: String,
    pub max_file_size: usize,
    pub watcher_debounce_ms: u64,
    /// Share of the token budget reserved for memory, in percent.
    pub memory_budget_pct: u64,
    pub session_compress_after_hours: u64,
    pub observation_ttl_days: u64,
    pub lsp_resolution: bool,
    /// Language servers by language name.
    pub lsp_servers: Vec<(String, LspServerConfig)>,
    pub workspace_group: Vec<String>,
}

pub fn default_token_budget() -> (r: usize)
    ensures
        r == 8000,
{
    8000
}

pub fn default_skeleton_level() -> (r: DetailLevel)
    ensures
        r == DetailLevel::Standard,
{
    DetailLevel::Standard
}

pub open spec fn default_db_path_view() -> Seq<char> {
    ".bexp/index.db"@
}

pub fn default_db_path() -> (r: String)
    ensures
        r@ == default_db_path_view(),
{
    ".bexp/index.db".to_owned()
}

pub fn default_max_file_size() -> (r: usize)
    ensures
        r == 1_000_000,
{
    1_000_000
}

pub fn default_watcher_debounce_ms() -> (r: u64)
    ensures
        r == 500,
{
    500
}

pub fn default_memory_budget_pct() -> (r: u64)
    ensures
        r == 10,
{
    10
}

pub fn default_session_compress_after_hours() -> (r: u64)
    ensures
        r == 2,
{
    2
}

pub fn default_observation_ttl_days() -> (r: u64)
    ensures
        r == 90,
{
    90
}

/// Directories excluded from indexing by default.
pub open spec fn default_excludes_view() -> Seq<Seq<char>> {
    seq![
        "node_modules"@,
        ".git"@,
        "target"@,
        "dist"@,
        "build"@,
        "__pycache__"@,
        ".venv"@,
        "venv"@,
        ".next"@,
        ".nuxt"@,
        "vendor"@,
        ".bexp"@,
    ]
}

pub fn default_excludes() -> (r: Vec<String>)
    ensures
        r@.map_values(|s: String| s@) == default_excludes_view(),
{
    let names: [&str; 12] = [
        "node_modules",
        ".git",
        "target",
        "dist",
        "build",
        "__pycache__",
        ".venv",
        "venv",
        ".next",
        ".nuxt",
        "vendor",
        ".bexp",
    ];
    assert(names@.map_values(|k: &str| k@) =~= default_excludes_view());
    let mut r: Vec<String> = Vec::new();
    let mut i: usize = 0;
    while i < 12
        invariant
            i <= 12,
            names@.map_values(|k: &str| k@) == default_excludes_view(),
            r@.map_values(|s: String| s@) == default_excludes_view().take(i as int),
        decreases 12 - i,
    {
        let s = names[i].to_owned();
        let ghost o = r@;
        r.push(s);
        assert(names@.map_values(|k: &str| k@)[i as int] == names@[i as int]@);
        assert(r@.map_values(|s: String| s@) =~= o.map_values(|s: String| s@).push(s@));
        assert(r@.map_values(|s: String| s@) =~= default_excludes_view().take(i as int + 1));
        i += 1;
    }
    assert(default_excludes_view().take(12) =~= default_excludes_view());
    r
}

impl Default for bexpConfig {
    fn default() -> (r: Self)
        ensures
            r.token_budget == 8000,
            r.default_skeleton_level == DetailLevel::Standard,
            r.exclude_patterns@.map_values(|s: String| s@) == default_excludes_view(),
            r.db_path@ == default_db_path_view(),
            r.max_file_size == 1_000_000,
            r.watcher_debounce_ms == 500,
            r.memory_budget_pct == 10,
            r.session_compress_after_hours == 2,
            r.observation_ttl_days == 90,
            !r.lsp_resolution,
            r.lsp_servers@.len() == 0,
            r.workspace_group@.len() == 0,
    {
        bexpConfig {
            token_budget: default_token_budget(),
            default_skeleton_level: default_skeleton_level(),
            exclude_patterns: default_excludes(),
            db_path: default_db_path(),
            max_file_size: default_max_file_size(),
            watcher_debounce_ms: default_watcher_debounce_ms(),
            memory_budget_pct: default_memory_budget_pct(),
            session_compress_after_hours: default_session_compress_after_hours(),
            observation_ttl_days: default_observation_ttl_days(),
            lsp_resolution: false,
            lsp_servers: Vec::new(),
            workspace_group: Vec::new(),
        }
    }
}

// ---------------------------------------------------------------------------
// Paths (Unix syntax)
// ---------------------------------------------------------------------------

/// The components of the `/`-separated pieces of a path, starting with piece
/// `i`: empty pieces vanish, and `.` is kept only as the very first component
/// of a relative path.
pub open spec fn piece_components(ps: Seq<Seq<char>>, i: int, rooted: bool) -> Seq<Seq<char>>
    decreases ps.len() - i,
{
    if i < 0 || i >= ps.len() {
        seq![]
    } else {
        let rest = piece_components(ps, i + 1, rooted);
        let p = ps[i];
        if p.len() == 0 || (p == seq!['.'] && (i > 0 || rooted)) {
            rest
        } else {
            seq![p] + rest
        }
    }
}

/// The names of a path's components (`Path::components`): `/` for the root of
/// an absolute path, then the non-empty pieces between separators, where `.`
/// survives only at the start of a relative path.
pub open spec fn path_components(p: Seq<char>) -> Seq<Seq<char>> {
    let rooted = p.len() > 0 && p[0] == '/';
    let rest = piece_components(pieces(p, '/'), 0, rooted);
    if rooted {
        seq![seq!['/']] + rest
    } else {
        rest
    }
}

/// `b` joined onto `a` (`Path::join`): an absolute `b` replaces `a`, otherwise a
/// separator is inserted unless `a` is empty or already ends in one.
pub open spec fn path_join(a: Seq<char>, b: Seq<char>) -> Seq<char> {
    if b.len() > 0 && b[0] == '/' {
        b
    } else if a.len() == 0 {
        b
    } else if a.last() == '/' {
        a + b
    } else {
        a + seq!['/'] + b
    }
}

/// Whether some component of the path equals one of the patterns.
pub open spec fn excluded_by(comps: Seq<Seq<char>>, patterns: Seq<Seq<char>>) -> bool {
    exists|i: int, j: int| 0 <= i < comps.len() && 0 <= j < patterns.len() && #[trigger] comps[i] == #[trigger] patterns[j]
}

pub fn split_pieces(v: &Vec<char>, sep: char) -> (r: Vec<Vec<char>>)
    ensures
        views(r@) == pieces(v@, sep),
{
    let mut out: Vec<Vec<char>> = Vec::new();
    let mut cur: Vec<char> = Vec::new();
    let mut i: usize = 0;
    while i < v.len()
        invariant
            i <= v.len(),
            views(out@).push(cur@) == pieces(v@.take(i as int), sep),
        decreases v.len() - i,
    {
        let ghost before = views(out@).push(cur@);
        assert(v@.take(i as int + 1).drop_last() =~= v@.take(i as int));
        if v[i] == sep {
            let done = cur;
            cur = Vec::new();
            out.push(done);
            assert(views(out@).push(cur@) =~= before.push(seq![]));
        } else {
            cur.push(v[i]);
            assert(views(out@).push(cur@) =~= before.update(before.len() - 1, before.last().push(v@[i as int])));
        }
        i += 1;
    }
    out.push(cur);
    assert(v@.take(v.len() as int) =~= v@);
    out
}

/// The component names of a path.
pub fn components_of(path: &str) -> (r: Vec<Vec<char>>)
    ensures
        views(r@) == path_components(path@),
{
    let v = chars_of(path);
    let rooted = v.len() > 0 && v[0] == '/';
    let ps = split_pieces(&v, '/');
    let ghost pv = views(ps@);
    let mut rest_rev: Vec<Vec<char>> = Vec::new();
    let mut i: usize = ps.len();
    let mut dot: Vec<char> = Vec::new();
    dot.push('.');
    assert(dot@ =~= seq!['.']);
    while i > 0
        invariant
            i <= ps@.len(),
            pv == views(ps@),
            dot@ == seq!['.'],
            views(rest_rev@) == piece_components(pv, i as int, rooted),
        decreases i,
    {
        let k = i - 1;
        let p = &ps[k];
        assert(pv[k as int] == p@);
        let skip = p.len() == 0 || (eq_chars(p, &dot) && (k > 0 || rooted));
        if !skip {
            let c = copy_chars(p);
            let ghost o = rest_rev@;
            rest_rev.insert(0, c);
            assert(views(rest_rev@) =~= seq![c@] + views(o));
        }
        i = k;
    }
    if rooted {
        let mut root: Vec<char> = Vec::new();
        root.push('/');
        let ghost o = rest_rev@;
        rest_rev.insert(0, root);
        assert(views(rest_rev@) =~= seq![seq!['/']] + views(o));
    }
    rest_rev
}

/// Whether a component list contains a component equal to some pattern.
pub fn any_component_matches(comps: &Vec<Vec<char>>, from: usize, patterns: &Vec<String>) -> (r: bool)
    requires
        from <= comps@.len(),
    ensures
        r == excluded_by(views(comps@).skip(from as int), patterns@.map_values(|s: String| s@)),
{
    let ghost cv = views(comps@).skip(from as int);
    let ghost pv = patterns@.map_values(|s: String| s@);
    let mut i: usize = from;
    while i < comps.len()
        invariant
            from <= i <= comps@.len(),
            cv == views(comps@).skip(from as int),
            pv == patterns@.map_values(|s: String| s@),
            forall|a: int, b: int| 0 <= a < i - from && 0 <= b < pv.len() ==> cv[a] != pv[b],
        decreases comps@.len() - i,
    {
        let mut j: usize = 0;
        while j < patterns.len()
            invariant
                from <= i < comps@.len(),
                j <= patterns@.len(),
                cv == views(comps@).skip(from as int),
                pv == patterns@.map_values(|s: String| s@),
                forall|a: int, b: int| 0 <= a < i - from && 0 <= b < pv.len() ==> cv[a] != pv[b],
                forall|b: int| 0 <= b < j ==> cv[i - from] != pv[b],
            decreases patterns@.len() - j,
        {
            let pc = chars_of(patterns[j].as_str());
            if eq_chars(&comps[i], &pc) {
                assert(cv[i - from] == pv[j as int]);
                return true;
            }
            j += 1;
        }
        i += 1;
    }
    false
}

impl bexpConfig {
    /// The database path for a workspace root: the configured path joined onto
    /// the root.
    pub fn db_path(&self, workspace_root: &str) -> (r: String)
        ensures
            r@ == path_join(workspace_root@, self.db_path@),
    {
        let a = chars_of(workspace_root);
        let b = chars_of(self.db_path.as_str());
        let mut r: Vec<char> = Vec::new();
        if b.len() > 0 && b[0] == '/' {
            crate::text::append_chars(&mut r, &b);
        } else if a.len() == 0 {
            crate::text::append_chars(&mut r, &b);
        } else {
            crate::text::append_chars(&mut r, &a);
            if a[a.len() - 1] != '/' {
                r.push('/');
            }
            crate::text::append_chars(&mut r, &b);
        }
        string_of(&r)
    }

    /// Whether any component of `path` equals one of the exclude patterns.
    pub fn is_excluded(&self, path: &str) -> (r: bool)
        ensures
            r == excluded_by(path_components(path@), self.exclude_patterns@.map_values(|s: String| s@)),
    {
        let comps = components_of(path);
        assert(views(comps@).skip(0) =~= views(comps@));
        any_component_matches(&comps, 0, &self.exclude_patterns)
    }
}

} // verus!
