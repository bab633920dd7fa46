//! `.env` files: every `KEY=value` line defines an environment variable.
use vstd::prelude::*;

use crate::capsule::budget::text_lines;
use crate::indexer::extractor::{ExtractedFile, ExtractedNode};
use crate::text::{
    char_is_alphanumeric, chars_of, copy_chars, eq_chars, is_alnum, string_of, trim, trim_chars,
    views,
};
use crate::types::{Language, NodeKind};
use vstd::utf8::encode_utf8;

verus! {

/// The index of the first `=` in `s`, or `-1`.
pub open spec fn first_eq_from(s: Seq<char>, i: int) -> int
    decreases s.len() - i,
{
    if i < 0 || i >= s.len() {
        -1
    } else if s[i] == '=' {
        i
    } else {
        first_eq_from(s, i + 1)
    }
}

/// A valid key: non-empty, only alphanumerics and underscores.
pub open spec fn valid_key(k: Seq<char>) -> bool {
    k.len() > 0 && forall|i: int| 0 <= i < k.len() ==> (is_alnum(#[trigger] k[i]) || k[i] == '_')
}

/// The variable a line defines, if any: the trimmed text before the first `=`
/// of the trimmed line, for lines that are not blank, not comments and whose
/// key is valid.
pub open spec fn line_key(line: Seq<char>) -> Option<Seq<char>> {
    let t = trim(line);
    let e = first_eq_from(t, 0);
    if t.len() == 0 || t[0] == '#' || e < 0 {
        None
    } else if valid_key(trim(t.take(e))) {
        Some(trim(t.take(e)))
    } else {
        None
    }
}

/// A defined variable as plain values: (key, trimmed line, line index, byte
/// length of the line).
pub type EnvDef = (Seq<char>, Seq<char>, int, int);

/// The first definition of each key among the first `n` lines, in order.
pub open spec fn env_defs(lines: Seq<Seq<char>>, n: nat) -> Seq<EnvDef>
    decreases n,
{
    if n == 0 || n > lines.len() {
        seq![]
    } else {
        let d = env_defs(lines, (n - 1) as nat);
        let l = lines[n - 1];
        match line_key(l) {
            Some(k) => if exists|j: int| 0 <= j < d.len() && #[trigger] d[j].0 == k {
                d
            } else {
                d.push((k, trim(l), n - 1, (encode_utf8(l).len() as usize) as int))
            },
            None => d,
        }
    }
}

/// The variables a `.env` text defines.
pub open spec fn dotenv_defs(source: Seq<char>) -> Seq<EnvDef> {
    env_defs(text_lines(source), text_lines(source).len())
}

/// The lines of a text, as [`text_lines`] defines them.
fn lines_of(v: &Vec<char>) -> (r: Vec<Vec<char>>)
    ensures
        views(r@) == text_lines(v@),
{
    let s = string_of(v);
    let x = crate::capsule::budget::extract_lines_all(s.as_str());
    x
}

fn string_byte_len(v: &Vec<char>) -> (r: usize)
    ensures
        r == encode_utf8(v@).len() as usize,
{
    let s = string_of(v);
    s.as_str().len()
}

/// Parses a `.env` file without a syntax tree: each `KEY=value` line (not a
/// comment, key non-empty and made of alphanumerics and underscores) becomes
/// an exported `env_var` symbol named after the key, with qualified name
/// `env::KEY`, the trimmed line as signature, the 0-based line index as its
/// lines, the line's byte length as end column and `defined_in` metadata;
/// only the first definition of a key counts.
pub fn extract_dotenv(source: &str, file_path: &str) -> (r: ExtractedFile)
    ensures
        r.language == Language::Dotenv,
        r.content_hash@.len() == 0,
        r.mtime_ns == 0,
        r.size_bytes == 0,
        r.edges@.len() == 0,
        r.unresolved_refs@.len() == 0,
        r.structure_hash is None,
        r.nodes@.len() == dotenv_defs(source@).len(),
        forall|i: int| 0 <= i < r.nodes@.len() ==> {
            let n = #[trigger] r.nodes@[i];
            let d = dotenv_defs(source@)[i];
            &&& n.kind == NodeKind::EnvVar
            &&& n.name@ == d.0
            &&& n.qualified_name matches Some(q) && q@ == seq!['e', 'n', 'v', ':', ':'] + d.0
            &&& n.signature matches Some(sg) && sg@ == d.1
            &&& n.docstring is None
            &&& n.line_start == d.2 && n.line_end == d.2
            &&& n.col_start == 0 && n.col_end == d.3
            &&& n.visibility is None
            &&& n.is_export
            &&& n.metadata matches Some(m) && m@.len() == 1 && m@[0].0@ == seq!['d', 'e', 'f', 'i', 'n', 'e', 'd', '_', 'i', 'n'] && m@[0].1@ == file_path@
        },
{
    let v = chars_of(source);
    let lines = lines_of(&v);
    let ghost lv = views(lines@);
    let mut nodes: Vec<ExtractedNode> = Vec::new();
    let mut keys: Vec<Vec<char>> = Vec::new();
    let mut i: usize = 0;
    while i < lines.len()
        invariant
            i <= lines@.len(),
            lv == views(lines@),
            nodes@.len() == keys@.len(),
            nodes@.len() == env_defs(lv, i as nat).len(),
            forall|j: int| 0 <= j < keys@.len() ==> (#[trigger] keys@[j])@ == env_defs(lv, i as nat)[j].0,
            forall|j: int| 0 <= j < nodes@.len() ==> {
                let n = #[trigger] nodes@[j];
                let d = env_defs(lv, i as nat)[j];
                &&& n.kind == NodeKind::EnvVar
                &&& n.name@ == d.0
                &&& n.qualified_name matches Some(q) && q@ == seq!['e', 'n', 'v', ':', ':'] + d.0
                &&& n.signature matches Some(sg) && sg@ == d.1
                &&& n.docstring is None
                &&& n.line_start == d.2 && n.line_end == d.2
                &&& n.col_start == 0 && n.col_end == d.3
                &&& n.visibility is None
                &&& n.is_export
                &&& n.metadata matches Some(m) && m@.len() == 1 && m@[0].0@ == seq!['d', 'e', 'f', 'i', 'n', 'e', 'd', '_', 'i', 'n'] && m@[0].1@ == file_path@
            },
        decreases lines@.len() - i,
    {
        let line = &lines[i];
        assert(lv[i as int] == line@);
        let ghost d = env_defs(lv, i as nat);
        let t = trim_chars(line);
        let mut e: usize = 0;
        while e < t.len() && t[e] != '='
            invariant
                e <= t@.len(),
                first_eq_from(t@, 0) == first_eq_from(t@, e as int),
            decreases t@.len() - e,
        {
            e += 1;
        }
        if t.len() > 0 && t[0] != '#' && e < t.len() {
            let mut before: Vec<char> = Vec::new();
            let mut k: usize = 0;
            while k < e
                invariant
                    k <= e,
                    e < t@.len(),
                    before@ == t@.take(k as int),
                decreases e - k,
            {
                before.push(t[k]);
                assert(before@ =~= t@.take(k as int + 1));
                k += 1;
            }
            let key = trim_chars(&before);
            let mut ok = key.len() > 0;
            let mut q: usize = 0;
            while q < key.len()
                invariant
                    q <= key@.len(),
                    ok == (key@.len() > 0 && forall|z: int| 0 <= z < q ==> (is_alnum(#[trigger] key@[z]) || key@[z] == '_')),
                decreases key@.len() - q,
            {
                let c = key[q];
                let good = char_is_alphanumeric(c) || c == '_';
                if !good {
                    ok = false;
                }
                q += 1;
            }
            if ok {
                assert(line_key(line@) == Some(key@));
                let mut seen = false;
                let mut z: usize = 0;
                while z < keys.len()
                    invariant
                        z <= keys@.len(),
                        seen == exists|j: int| 0 <= j < z && (#[trigger] keys@[j])@ == key@,
                    decreases keys@.len() - z,
                {
                    if eq_chars(&keys[z], &key) {
                        seen = true;
                    }
                    z += 1;
                }
                assert(seen == exists|j: int| 0 <= j < d.len() && #[trigger] d[j].0 == key@) by {
                    if seen {
                        let j = choose|j: int| 0 <= j < keys@.len() && (#[trigger] keys@[j])@ == key@;
                        assert(d[j].0 == key@);
                    }
                    if exists|j: int| 0 <= j < d.len() && #[trigger] d[j].0 == key@ {
                        let j = choose|j: int| 0 <= j < d.len() && #[trigger] d[j].0 == key@;
                        assert(keys@[j]@ == key@);
                    }
                }
                if !seen {
                    let mut qn: Vec<char> = Vec::new();
                    qn.push('e');
                    qn.push('n');
                    qn.push('v');
                    qn.push(':');
                    qn.push(':');
                    crate::text::append_chars(&mut qn, &key);
                    assert(qn@ =~= seq!['e', 'n', 'v', ':', ':'] + key@);
                    let mut meta: Vec<(String, String)> = Vec::new();
                    let dk: Vec<char> = vec!['d', 'e', 'f', 'i', 'n', 'e', 'd', '_', 'i', 'n'];
                    let mk = string_of(&dk);
                    let fp = chars_of(file_path);
                    let mv = string_of(&fp);
                    meta.push((mk, mv));
                    let col_end = string_byte_len(line);
                    let node = ExtractedNode {
                        kind: NodeKind::EnvVar,
                        name: string_of(&key),
                        qualified_name: Some(string_of(&qn)),
                        signature: Some(string_of(&t)),
                        docstring: None,
                        line_start: i,
                        line_end: i,
                        col_start: 0,
                        col_end,
                        visibility: None,
                        is_export: true,
                        metadata: Some(meta),
                    };
                    let kc = copy_chars(&key);
                    nodes.push(node);
                    keys.push(kc);
                    assert(env_defs(lv, (i + 1) as nat) == d.push((key@, t@, i as int, col_end as int)));
                } else {
                    assert(env_defs(lv, (i + 1) as nat) == d);
                }
            } else {
                assert(line_key(line@) is None);
                assert(env_defs(lv, (i + 1) as nat) == d);
            }
        } else {
            assert(line_key(line@) is None);
            assert(env_defs(lv, (i + 1) as nat) == d);
        }
        i += 1;
    }
    ExtractedFile {
        language: Language::Dotenv,
        content_hash: String::new(),
        mtime_ns: 0,
        size_bytes: 0,
        nodes,
        edges: Vec::new(),
        unresolved_refs: Vec::new(),
        structure_hash: None,
    }
}

proof fn lemma_env_defs_distinct(lines: Seq<Seq<char>>, n: nat)
    ensures
        forall|i: int, j: int|
            0 <= i < j < env_defs(lines, n).len() ==> #[trigger] env_defs(lines, n)[i].0
                != #[trigger] env_defs(lines, n)[j].0,
    decreases n,
{
    if n > 0 && n <= lines.len() {
        lemma_env_defs_distinct(lines, (n - 1) as nat);
        let d = env_defs(lines, (n - 1) as nat);
        let e = env_defs(lines, n);
        assert forall|i: int, j: int| 0 <= i < j < e.len() implies #[trigger] e[i].0 != #[trigger] e[j].0 by {
            if j < d.len() {
                assert(e[i] == d[i] && e[j] == d[j]);
            } else {
                assert(e[i] == d[i]);
            }
        }
    }
}

/// A `.env` file defines each variable once: the keys of its definitions
/// are pairwise distinct (a repeated key keeps its first definition).
pub proof fn lemma_dotenv_keys_distinct(source: Seq<char>)
    ensures
        forall|i: int, j: int|
            0 <= i < j < dotenv_defs(source).len() ==> #[trigger] dotenv_defs(source)[i].0
                != #[trigger] dotenv_defs(source)[j].0,
{
    lemma_env_defs_distinct(text_lines(source), text_lines(source).len());
}

} // verus!
