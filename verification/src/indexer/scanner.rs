//! Which files of a workspace are indexed.
use vstd::prelude::*;

use crate::config::{any_component_matches, bexpConfig, components_of, excluded_by, path_components};
use crate::text::{eq_chars, string_of, views};
use crate::types::{language_of_extension, Language};

verus! {

/// Selects the files of a workspace to index under a configuration.
pub struct Scanner<'a> {
    pub config: &'a bexpConfig,
}

/// The final component of a path when it is a normal name (`Path::file_name`).
pub open spec fn file_name(p: Seq<char>) -> Option<Seq<char>> {
    let c = path_components(p);
    if c.len() == 0 {
        None
    } else if c.last() == seq!['/'] || c.last() == seq!['.'] || c.last() == seq!['.', '.'] {
        None
    } else {
        Some(c.last())
    }
}

/// The index of the last occurrence of `c` in `s`.
pub open spec fn last_index_of(s: Seq<char>, c: char) -> Option<int>
    decreases s.len(),
{
    if s.len() == 0 {
        None
    } else if s.last() == c {
        Some(s.len() - 1)
    } else {
        last_index_of(s.drop_last(), c)
    }
}

/// A path's extension (`Path::extension`), or the empty text when it has
/// none: the part of the file name after its last `.`, unless that `.` opens
/// the name.
pub open spec fn extension_opt(path: Seq<char>) -> Option<Seq<char>> {
    match file_name(path) {
        Some(n) => match last_index_of(n, '.') {
            Some(i) => if i > 0 {
                Some(n.skip(i + 1))
            } else {
                None
            },
            None => None,
        },
        None => None,
    }
}

/// A path's extension, or the empty text when it has none.
pub open spec fn extension_of(path: Seq<char>) -> Seq<char> {
    match extension_opt(path) {
        Some(e) => e,
        None => Seq::empty(),
    }
}

/// The extension of a path (`Path::extension`), if it has one.
pub fn path_extension(path: &str) -> (r: Option<String>)
    ensures
        match r {
            Some(e) => extension_opt(path@) == Some(e@),
            None => extension_opt(path@) is None,
        },
{
    let mut out: Vec<char> = Vec::new();
    let comps = components_of(path);
    if comps.len() == 0 {
        return None;
    }
    let last = &comps[comps.len() - 1];
    assert(views(comps@).last() == last@);
    if last.len() == 1 && (last[0] == '/' || last[0] == '.') {
        assert(last@ =~= seq![last@[0]]);
        return None;
    }
    if last.len() == 2 && last[0] == '.' && last[1] == '.' {
        assert(last@ =~= seq!['.', '.']);
        return None;
    }
    assert(last@ != seq!['/'] && last@ != seq!['.'] && last@ != seq!['.', '.']) by {
        if last@ == seq!['/'] || last@ == seq!['.'] {
            assert(last@.len() == 1);
        }
        if last@ == seq!['.', '.'] {
            assert(last@.len() == 2 && last@[0] == '.' && last@[1] == '.');
        }
    }
    assert(file_name(path@) == Some(last@));
    let mut k: usize = last.len();
    assert(last@.take(k as int) =~= last@);
    while k > 0 && last[k - 1] != '.'
        invariant
            k <= last@.len(),
            last_index_of(last@, '.') == last_index_of(last@.take(k as int), '.'),
        decreases k,
    {
        assert(last@.take(k as int).drop_last() =~= last@.take(k as int - 1));
        k -= 1;
    }
    if k <= 1 {
        if k == 1 {
            assert(last@.take(1).last() == '.');
        }
        return None;
    }
    assert(last@.take(k as int).last() == '.');
    let mut j: usize = k;
    let ghost before = out@;
    assert(before.len() == 0);
    while j < last.len()
        invariant
            k <= j <= last@.len(),
            out@ == before + last@.subrange(k as int, j as int),
        decreases last.len() - j,
    {
        out.push(last[j]);
        assert(out@ =~= before + last@.subrange(k as int, j as int + 1));
        j += 1;
    }
    assert(last@.subrange(k as int, last@.len() as int) =~= last@.skip(k as int));
    Some(string_of(&out))
}

/// A `.env` file: named `.env` or starting with `.env.`.
pub open spec fn is_dotenv_name(n: Seq<char>) -> bool {
    n == seq!['.', 'e', 'n', 'v'] || (n.len() >= 5 && n.take(5) == seq!['.', 'e', 'n', 'v', '.'])
}

/// Whether `prefix` is a prefix of `s`.
pub open spec fn is_prefix_of<T>(prefix: Seq<T>, s: Seq<T>) -> bool {
    prefix.len() <= s.len() && s.take(prefix.len() as int) == prefix
}

fn dotenv_name(n: &Vec<char>) -> (r: bool)
    ensures
        r == is_dotenv_name(n@),
{
    let e: [char; 5] = ['.', 'e', 'n', 'v', '.'];
    if n.len() == 4 {
        let r = n[0] == '.' && n[1] == 'e' && n[2] == 'n' && n[3] == 'v';
        assert(r ==> n@ =~= seq!['.', 'e', 'n', 'v']);
        return r;
    }
    if n.len() >= 5 {
        let r = n[0] == '.' && n[1] == 'e' && n[2] == 'n' && n[3] == 'v' && n[4] == '.';
        assert(r ==> n@.take(5) =~= seq!['.', 'e', 'n', 'v', '.']);
        assert(!r ==> n@.take(5) != seq!['.', 'e', 'n', 'v', '.']) by {
            if !r {
                assert(n@.take(5)[0] == n@[0] && n@.take(5)[1] == n@[1] && n@.take(5)[2] == n@[2]
                    && n@.take(5)[3] == n@[3] && n@.take(5)[4] == n@[4]);
            }
        }
        return r;
    }
    false
}

impl<'a> Scanner<'a> {
    pub fn new(config: &'a bexpConfig) -> (r: Self)
        ensures
            r.config == config,
    {
        Scanner { config }
    }

    /// Whether a path names a `.env` file (`.env`, `.env.local`,
    /// `.env.production`, ...).
    pub fn is_dotenv_file(path: &str) -> (r: bool)
        ensures
            r == (file_name(path@) matches Some(n) && is_dotenv_name(n)),
    {
        let comps = components_of(path);
        if comps.len() == 0 {
            return false;
        }
        let last = &comps[comps.len() - 1];
        assert(views(comps@).last() == last@);
        if last.len() == 1 && (last[0] == '/' || last[0] == '.') {
            assert(last@ =~= seq![last@[0]]);
            return false;
        }
        if last.len() == 2 && last[0] == '.' && last[1] == '.' {
            assert(last@ =~= seq!['.', '.']);
            return false;
        }
        assert(last@ != seq!['/'] && last@ != seq!['.'] && last@ != seq!['.', '.']) by {
            if last@ == seq!['/'] || last@ == seq!['.'] {
                assert(last@.len() == 1);
            }
            if last@ == seq!['.', '.'] {
                assert(last@.len() == 2 && last@[0] == '.' && last@[1] == '.');
            }
        }
        dotenv_name(last)
    }

    /// Whether a path under `root` is excluded: the components that follow the
    /// root's components include an exclude pattern. A path outside `root` is
    /// never excluded.
    pub fn is_excluded(&self, path: &str, root: &str) -> (r: bool)
        ensures
            r == (is_prefix_of(path_components(root@), path_components(path@)) && excluded_by(
                path_components(path@).skip(path_components(root@).len() as int),
                self.config.exclude_patterns@.map_values(|s: String| s@),
            )),
    {
        let pc = components_of(path);
        let rc = components_of(root);
        if rc.len() > pc.len() {
            return false;
        }
        let mut i: usize = 0;
        while i < rc.len()
            invariant
                i <= rc@.len(),
                rc@.len() <= pc@.len(),
                views(pc@) == path_components(path@),
                views(rc@) == path_components(root@),
                forall|k: int| 0 <= k < i ==> views(pc@)[k] == views(rc@)[k],
            decreases rc@.len() - i,
        {
            if !eq_chars(&pc[i], &rc[i]) {
                assert(views(pc@).take(rc@.len() as int)[i as int] != views(rc@)[i as int]);
                assert(views(pc@).take(rc@.len() as int) != views(rc@));
                assert(!is_prefix_of(path_components(root@), path_components(path@)));
                return false;
            }
            i += 1;
        }
        assert(views(pc@).take(rc@.len() as int) =~= views(rc@));
        any_component_matches(&pc, rc.len(), &self.config.exclude_patterns)
    }
}

impl<'a> Scanner<'a> {
    /// Whether a file met while walking the workspace is indexed, given its
    /// size when it could be read: a `.env` file when its size is known and
    /// within the limit; any other file when its extension names a known
    /// language and it is not known to exceed the limit.
    pub fn accepts(&self, path: &str, size: Option<u64>) -> (r: bool)
        ensures
            r == (if file_name(path@) matches Some(n) && is_dotenv_name(n) {
                size matches Some(s) && (s as usize) <= self.config.max_file_size
            } else {
                extension_opt(path@) matches Some(e) && language_of_extension(e) is Some && !(size matches Some(s) && (s
                    as usize) > self.config.max_file_size)
            }),
    {
        if Scanner::is_dotenv_file(path) {
            return match size {
                Some(s) => (s as usize) <= self.config.max_file_size,
                None => false,
            };
        }
        let known = match path_extension(path) {
            Some(ext) => Language::from_extension(ext.as_str()).is_some(),
            None => false,
        };
        if !known {
            return false;
        }
        match size {
            Some(s) => !((s as usize) > self.config.max_file_size),
            None => true,
        }
    }
}

/// The language a walked file is indexed as: by its extension when it has
/// one, else as a `.env` file when it is named like one.
pub fn language_for_path(path: &str) -> (r: Option<Language>)
    ensures
        r == (match extension_opt(path@) {
            Some(e) => language_of_extension(e),
            None => if file_name(path@) matches Some(n) && is_dotenv_name(n) {
                Some(Language::Dotenv)
            } else {
                None
            },
        }),
{
    match path_extension(path) {
        Some(ext) => Language::from_extension(ext.as_str()),
        None => if Scanner::is_dotenv_file(path) {
            Some(Language::Dotenv)
        } else {
            None
        },
    }
}

} // verus!
