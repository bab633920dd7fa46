//! Git integration: submodules declared in `.gitmodules`, and the hooks that
//! keep the index current.
pub mod hooks;

use vstd::prelude::*;

use crate::capsule::budget::{extract_lines_all, text_lines};
use crate::text::{char_is_whitespace, string_of, trim, trim_chars, trim_start};

verus! {

/// The submodule path a `.gitmodules` line declares: for a line that, once
/// trimmed, reads `path`, optional whitespace, `=`, and a value, the trimmed
/// value when it is not empty.
pub open spec fn submodule_path(line: Seq<char>) -> Option<Seq<char>> {
    let t = trim(line);
    if t.len() >= 4 && t.take(4) == seq!['p', 'a', 't', 'h'] {
        let v = trim_start(t.skip(4));
        if v.len() > 0 && v[0] == '=' && trim(v.skip(1)).len() > 0 {
            Some(trim(v.skip(1)))
        } else {
            None
        }
    } else {
        None
    }
}

/// The submodule paths of the lines, in order.
pub open spec fn submodule_paths(lines: Seq<Seq<char>>) -> Seq<Seq<char>>
    decreases lines.len(),
{
    if lines.len() == 0 {
        Seq::empty()
    } else {
        let rest = submodule_paths(lines.drop_last());
        match submodule_path(lines.last()) {
            Some(p) => rest.push(p),
            None => rest,
        }
    }
}

fn submodule_path_exec(line: &Vec<char>) -> (r: Option<Vec<char>>)
    ensures
        match r {
            Some(p) => submodule_path(line@) == Some(p@),
            None => submodule_path(line@) is None,
        },
{
    let t = trim_chars(line);
    if t.len() < 4 || t[0] != 'p' || t[1] != 'a' || t[2] != 't' || t[3] != 'h' {
        proof {
            if t@.len() >= 4 {
                if t@.take(4) == seq!['p', 'a', 't', 'h'] {
                    assert(t@.take(4)[0] == 'p');
                    assert(t@.take(4)[1] == 'a');
                    assert(t@.take(4)[2] == 't');
                    assert(t@.take(4)[3] == 'h');
                }
            }
        }
        return None;
    }
    assert(t@.take(4) =~= seq!['p', 'a', 't', 'h']);
    let mut a: usize = 4;
    assert(t@.skip(4).skip(0) =~= t@.skip(4));
    while a < t.len() && char_is_whitespace(t[a])
        invariant
            4 <= a <= t@.len(),
            trim_start(t@.skip(4)) == trim_start(t@.skip(a as int)),
        decreases t.len() - a,
    {
        assert(t@.skip(a as int).drop_first() =~= t@.skip(a as int + 1));
        a += 1;
    }
    let ghost v = t@.skip(a as int);
    assert(trim_start(v) == v);
    if a >= t.len() || t[a] != '=' {
        return None;
    }
    let mut rest: Vec<char> = Vec::new();
    let mut k: usize = a + 1;
    while k < t.len()
        invariant
            a + 1 <= k <= t@.len(),
            rest@ == t@.subrange(a + 1, k as int),
        decreases t.len() - k,
    {
        rest.push(t[k]);
        assert(rest@ =~= t@.subrange(a + 1, k as int + 1));
        k += 1;
    }
    assert(rest@ =~= v.skip(1));
    let p = trim_chars(&rest);
    if p.len() == 0 {
        None
    } else {
        Some(p)
    }
}

/// The submodule paths declared in a `.gitmodules` text, in order: the
/// values of its `path = ...` lines that are not empty.
pub fn parse_submodule_paths(content: &str) -> (r: Vec<String>)
    ensures
        r@.map_values(|s: String| s@) == submodule_paths(text_lines(content@)),
{
    let lines = extract_lines_all(content);
    let ghost lv = lines@.map_values(|l: Vec<char>| l@);
    assert(lv =~= crate::text::views(lines@));
    let mut out: Vec<String> = Vec::new();
    let mut i: usize = 0;
    while i < lines.len()
        invariant
            i <= lines@.len(),
            lv == lines@.map_values(|l: Vec<char>| l@),
            out@.map_values(|s: String| s@) == submodule_paths(lv.take(i as int)),
        decreases lines.len() - i,
    {
        assert(lv.take(i as int + 1).drop_last() =~= lv.take(i as int));
        let ghost before = out@.map_values(|s: String| s@);
        match submodule_path_exec(&lines[i]) {
            Some(p) => {
                let s = string_of(&p);
                out.push(s);
                assert(out@.map_values(|s: String| s@) =~= before.push(p@));
            },
            None => {},
        }
        i += 1;
    }
    assert(lv.take(lv.len() as int) =~= lv);
    out
}

} // verus!
