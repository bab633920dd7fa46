//! Character classes, case folding and the sequence-level text model that the
//! tokenizers, query sanitizers and parsers of this crate are specified over.
use vstd::prelude::*;

verus! {

// ---------------------------------------------------------------------------
// Character classes and case folding (Unicode tables of the standard library)
// ---------------------------------------------------------------------------

/// Whether a character has the Unicode `Lowercase` property.
pub uninterp spec fn is_lower(c: char) -> bool;

/// Whether a character has the Unicode `Uppercase` property.
pub uninterp spec fn is_upper(c: char) -> bool;

/// Whether a character is alphabetic or numeric in the Unicode sense.
pub uninterp spec fn is_alnum(c: char) -> bool;

/// Whether a character has the Unicode `White_Space` property.
pub uninterp spec fn is_ws(c: char) -> bool;

/// The Unicode lowercase mapping of a whole string.
pub uninterp spec fn lowercase(s: Seq<char>) -> Seq<char>;

pub open spec fn is_ascii_char(c: char) -> bool {
    (c as u32) < 128
}

pub open spec fn is_ascii_seq(s: Seq<char>) -> bool {
    forall|i: int| 0 <= i < s.len() ==> is_ascii_char(#[trigger] s[i])
}

/// ASCII case folding of one character.
pub open spec fn ascii_lower(c: char) -> char {
    if 'A' <= c && c <= 'Z' {
        (c as u32 + 32) as char
    } else {
        c
    }
}

/// `char::is_lowercase`: true when `c` has the Unicode `Lowercase` property,
/// which on ASCII input is exactly `'a'..='z'`.
#[verifier::external_body]
pub fn char_is_lowercase(c: char) -> (r: bool)
    ensures
        r == is_lower(c),
        is_ascii_char(c) ==> (r <==> ('a' <= c && c <= 'z')),
{
    c.is_lowercase()
}

/// `char::is_uppercase`: true when `c` has the Unicode `Uppercase` property,
/// which on ASCII input is exactly `'A'..='Z'`.
#[verifier::external_body]
pub fn char_is_uppercase(c: char) -> (r: bool)
    ensures
        r == is_upper(c),
        is_ascii_char(c) ==> (r <==> ('A' <= c && c <= 'Z')),
{
    c.is_uppercase()
}

/// `char::is_alphanumeric`: true for alphabetic or numeric characters; on ASCII
/// input exactly the letters and the digits.
#[verifier::external_body]
pub fn char_is_alphanumeric(c: char) -> (r: bool)
    ensures
        r == is_alnum(c),
        is_ascii_char(c) ==> (r <==> (('a' <= c && c <= 'z') || ('A' <= c && c <= 'Z') || ('0'
            <= c && c <= '9'))),
{
    c.is_alphanumeric()
}

/// `char::is_whitespace`: true for characters with the `White_Space` property;
/// on ASCII input exactly space, tab, line feed, vertical tab, form feed and
/// carriage return.
#[verifier::external_body]
pub fn char_is_whitespace(c: char) -> (r: bool)
    ensures
        r == is_ws(c),
        is_ascii_char(c) ==> (r <==> (c == ' ' || c == '\t' || c == '\n' || c == '\x0B' || c
            == '\x0C' || c == '\r')),
{
    c.is_whitespace()
}

/// `str::to_lowercase`: the Unicode lowercase mapping of the whole string; on
/// ASCII input it maps `'A'..='Z'` to `'a'..='z'` one for one and keeps the rest.
#[verifier::external_body]
fn str_to_lowercase(s: &str) -> (r: String)
    ensures
        r@ == lowercase(s@),
        is_ascii_seq(s@) ==> r@ == s@.map_values(|c: char| ascii_lower(c)),
{
    s.to_lowercase()
}

/// The Unicode uppercase mapping of a whole string.
pub uninterp spec fn uppercase(s: Seq<char>) -> Seq<char>;

/// ASCII upper-casing of one character.
pub open spec fn ascii_upper(c: char) -> char {
    if 'a' <= c && c <= 'z' {
        (c as u32 - 32) as char
    } else {
        c
    }
}

/// `str::to_uppercase`: the Unicode uppercase mapping of the whole string; on
/// ASCII input it maps `'a'..='z'` to `'A'..='Z'` one for one and keeps the rest.
#[verifier::external_body]
pub fn str_to_uppercase(s: &str) -> (r: String)
    ensures
        r@ == uppercase(s@),
        is_ascii_seq(s@) ==> r@ == s@.map_values(|c: char| ascii_upper(c)),
{
    s.to_uppercase()
}

/// `String::push`: appends one character.
#[verifier::external_body]
fn string_push(s: &mut String, c: char)
    ensures
        final(s)@ == old(s)@.push(c),
{
    s.push(c)
}

// ---------------------------------------------------------------------------
// Sequence model
// ---------------------------------------------------------------------------

pub open spec fn views(v: Seq<Vec<char>>) -> Seq<Seq<char>> {
    v.map_values(|x: Vec<char>| x@)
}

pub open spec fn string_views(v: Seq<String>) -> Seq<Seq<char>> {
    v.map_values(|x: String| x@)
}

/// The marks of a sequence under a character class.
pub open spec fn marks(s: Seq<char>, class: spec_fn(char) -> bool) -> Seq<bool> {
    s.map_values(|c: char| class(c))
}

/// The maximal runs of characters whose mark is `false`, in order (the
/// non-empty pieces left when the string is cut at every marked character).
pub open spec fn runs(s: Seq<char>, m: Seq<bool>) -> Seq<Seq<char>>
    decreases s.len(),
{
    if s.len() == 0 {
        seq![]
    } else {
        let r = runs(s.drop_last(), m.take(s.len() - 1));
        if m[s.len() - 1] {
            r
        } else if s.len() >= 2 && !m[s.len() - 2] {
            r.update(r.len() - 1, r.last().push(s.last()))
        } else {
            r.push(seq![s.last()])
        }
    }
}

/// The whitespace-separated words of a string (`str::split_whitespace`).
pub open spec fn words(s: Seq<char>) -> Seq<Seq<char>> {
    runs(s, marks(s, |c: char| is_ws(c)))
}

/// All pieces of a string cut at every occurrence of `sep`, empty ones
/// included (`str::split`).
pub open spec fn pieces(s: Seq<char>, sep: char) -> Seq<Seq<char>>
    decreases s.len(),
{
    if s.len() == 0 {
        seq![seq![]]
    } else {
        let p = pieces(s.drop_last(), sep);
        if s.last() == sep {
            p.push(seq![])
        } else {
            p.update(p.len() - 1, p.last().push(s.last()))
        }
    }
}

/// Concatenation of the pieces with `sep` between consecutive ones.
pub open spec fn join(parts: Seq<Seq<char>>, sep: Seq<char>) -> Seq<char>
    decreases parts.len(),
{
    if parts.len() == 0 {
        seq![]
    } else if parts.len() == 1 {
        parts[0]
    } else {
        join(parts.drop_last(), sep) + sep + parts.last()
    }
}

/// Concatenation of a sequence of sequences.
pub open spec fn flatten<T>(parts: Seq<Seq<T>>) -> Seq<T>
    decreases parts.len(),
{
    if parts.len() == 0 {
        seq![]
    } else {
        flatten(parts.drop_last()) + parts.last()
    }
}

/// The characters of `s` that satisfy `keep`, in order.
pub open spec fn keep_chars(s: Seq<char>, keep: spec_fn(char) -> bool) -> Seq<char>
    decreases s.len(),
{
    if s.len() == 0 {
        seq![]
    } else if keep(s.last()) {
        keep_chars(s.drop_last(), keep).push(s.last())
    } else {
        keep_chars(s.drop_last(), keep)
    }
}

/// `needle` occurs in `hay` as a contiguous block (`str::contains`).
pub open spec fn contains_sub(hay: Seq<char>, needle: Seq<char>) -> bool {
    exists|i: int| 0 <= i && i + needle.len() <= hay.len() && #[trigger] hay.subrange(i, i + needle.len()) == needle
}

/// Whether the UTF-8 encoding of `s` is longer than one byte.
pub open spec fn utf8_longer_than_one(s: Seq<char>) -> bool {
    s.len() > 1 || (s.len() == 1 && (s[0] as u32) >= 128)
}

/// Whether the camel-case boundary rule places a cut before position `i`:
/// a lowercase→uppercase step, or the last capital of an acronym that is
/// followed by a lowercase letter (`HTMLParser` → `HTML` + `Parser`).
pub open spec fn camel_boundary(c: Seq<char>, i: int) -> bool {
    (is_lower(c[i - 1]) && is_upper(c[i])) || (i + 1 < c.len() && is_upper(c[i - 1]) && is_upper(
        c[i],
    ) && is_lower(c[i + 1]))
}

/// The camel-case parts of the first `n` characters of `c` (boundaries are
/// judged against the whole of `c`).
pub open spec fn camel_upto(c: Seq<char>, n: nat) -> Seq<Seq<char>>
    decreases n,
{
    if n == 0 {
        seq![]
    } else if n == 1 {
        seq![seq![c[0]]]
    } else {
        let p = camel_upto(c, (n - 1) as nat);
        if camel_boundary(c, n - 1) {
            p.push(seq![c[n - 1]])
        } else {
            p.update(p.len() - 1, p.last().push(c[n - 1]))
        }
    }
}

/// The camel-case parts of `c`.
pub open spec fn camel_split(c: Seq<char>) -> Seq<Seq<char>> {
    camel_upto(c, c.len())
}

/// Removes later repetitions, keeping the first occurrence of each element.
pub open spec fn dedup<T>(s: Seq<T>) -> Seq<T>
    decreases s.len(),
{
    if s.len() == 0 {
        seq![]
    } else {
        let d = dedup(s.drop_last());
        if d.contains(s.last()) {
            d
        } else {
            d.push(s.last())
        }
    }
}

// ---------------------------------------------------------------------------
// Lemmas
// ---------------------------------------------------------------------------

pub proof fn lemma_camel_upto_len(c: Seq<char>, n: nat)
    ensures
        camel_upto(c, n).len() <= n,
        n > 0 ==> camel_upto(c, n).len() > 0,
    decreases n,
{
    if n > 1 {
        lemma_camel_upto_len(c, (n - 1) as nat);
    }
}

pub proof fn lemma_camel_upto_nonempty(c: Seq<char>, n: nat)
    ensures
        forall|k: int| 0 <= k < camel_upto(c, n).len() ==> (#[trigger] camel_upto(c, n)[k]).len()
            > 0,
    decreases n,
{
    if n > 1 {
        lemma_camel_upto_nonempty(c, (n - 1) as nat);
        lemma_camel_upto_len(c, (n - 1) as nat);
    }
}

pub proof fn lemma_pieces_len(s: Seq<char>, sep: char)
    ensures
        pieces(s, sep).len() >= 1,
    decreases s.len(),
{
    if s.len() > 0 {
        lemma_pieces_len(s.drop_last(), sep);
    }
}

pub proof fn lemma_runs_nonempty(s: Seq<char>, m: Seq<bool>)
    requires
        m.len() == s.len(),
    ensures
        forall|k: int| 0 <= k < runs(s, m).len() ==> (#[trigger] runs(s, m)[k]).len() > 0,
        s.len() > 0 && !m[s.len() - 1] ==> runs(s, m).len() > 0,
    decreases s.len(),
{
    if s.len() > 0 {
        let s2 = s.drop_last();
        let m2 = m.take(s.len() - 1);
        lemma_runs_nonempty(s2, m2);
        let r = runs(s2, m2);
        if !m[s.len() - 1] {
            if s.len() >= 2 && !m[s.len() - 2] {
                assert(m2[s.len() - 2] == m[s.len() - 2]);
                let r2 = r.update(r.len() - 1, r.last().push(s.last()));
                assert(runs(s, m) == r2);
                assert forall|k: int| 0 <= k < r2.len() implies (#[trigger] r2[k]).len() > 0 by {
                    if k < r.len() - 1 {
                        assert(r2[k] == r[k]);
                    }
                }
            } else {
                let r2 = r.push(seq![s.last()]);
                assert(runs(s, m) == r2);
                assert forall|k: int| 0 <= k < r2.len() implies (#[trigger] r2[k]).len() > 0 by {
                    if k < r.len() {
                        assert(r2[k] == r[k]);
                    }
                }
            }
        }
    }
}

pub proof fn lemma_push_contains<T>(s: Seq<T>, y: T, x: T)
    ensures
        s.push(y).contains(x) <==> (s.contains(x) || x == y),
{
    if s.contains(x) {
        let k = choose|k: int| 0 <= k < s.len() && s[k] == x;
        assert(s.push(y)[k] == x);
    }
    if x == y {
        assert(s.push(y)[s.len() as int] == x);
    }
    if s.push(y).contains(x) {
        let k = choose|k: int| 0 <= k < s.push(y).len() && s.push(y)[k] == x;
        if k < s.len() {
            assert(s[k] == x);
        }
    }
}

pub proof fn lemma_dedup_contains<T>(s: Seq<T>, x: T)
    ensures
        dedup(s).contains(x) <==> s.contains(x),
    decreases s.len(),
{
    if s.len() > 0 {
        let s2 = s.drop_last();
        lemma_dedup_contains(s2, x);
        assert(s =~= s2.push(s.last()));
        lemma_push_contains(s2, s.last(), x);
        let d = dedup(s2);
        lemma_push_contains(d, s.last(), x);
        if d.contains(s.last()) {
            lemma_dedup_contains(s2, s.last());
        }
    }
}

pub proof fn lemma_dedup_no_dup<T>(s: Seq<T>)
    ensures
        dedup(s).no_duplicates(),
    decreases s.len(),
{
    if s.len() > 0 {
        lemma_dedup_no_dup(s.drop_last());
    }
}

/// `s` without leading whitespace.
pub open spec fn trim_start(s: Seq<char>) -> Seq<char>
    decreases s.len(),
{
    if s.len() > 0 && is_ws(s[0]) {
        trim_start(s.drop_first())
    } else {
        s
    }
}

/// `s` without trailing whitespace.
pub open spec fn trim_end(s: Seq<char>) -> Seq<char>
    decreases s.len(),
{
    if s.len() > 0 && is_ws(s.last()) {
        trim_end(s.drop_last())
    } else {
        s
    }
}

/// `s` without leading and trailing whitespace (`str::trim`).
pub open spec fn trim(s: Seq<char>) -> Seq<char> {
    trim_end(trim_start(s))
}

// ---------------------------------------------------------------------------
// Executable helpers
// ---------------------------------------------------------------------------

/// The characters of a string slice, in order.
pub fn chars_of(s: &str) -> (v: Vec<char>)
    ensures
        v@ == s@,
{
    let mut v: Vec<char> = Vec::new();
    for c in it: s.chars()
        invariant
            v@ == it.seq().take(it.index() as int),
    {
        v.push(c);
    }
    v
}

/// A `String` holding exactly the given characters.
pub fn string_of(v: &Vec<char>) -> (s: String)
    ensures
        s@ == v@,
{
    let mut s = String::new();
    let mut i: usize = 0;
    while i < v.len()
        invariant
            i <= v.len(),
            s@ == v@.take(i as int),
        decreases v.len() - i,
    {
        string_push(&mut s, v[i]);
        assert(v@.take(i as int + 1) =~= v@.take(i as int).push(v@[i as int]));
        i += 1;
    }
    assert(v@.take(v.len() as int) =~= v@);
    s
}

/// The Unicode lowercase mapping of the given characters.
pub fn lowercase_chars(v: &Vec<char>) -> (r: Vec<char>)
    ensures
        r@ == lowercase(v@),
        is_ascii_seq(v@) ==> r@ == v@.map_values(|c: char| ascii_lower(c)),
{
    let s = string_of(v);
    let l = str_to_lowercase(s.as_str());
    chars_of(l.as_str())
}

/// Appends all characters of `src` to `dst`.
pub fn append_chars(dst: &mut Vec<char>, src: &Vec<char>)
    ensures
        final(dst)@ == old(dst)@ + src@,
{
    let mut i: usize = 0;
    while i < src.len()
        invariant
            i <= src.len(),
            dst@ == old(dst)@ + src@.take(i as int),
        decreases src.len() - i,
    {
        dst.push(src[i]);
        assert(src@.take(i as int + 1) =~= src@.take(i as int).push(src@[i as int]));
        i += 1;
    }
    assert(src@.take(src.len() as int) =~= src@);
}

/// A copy of a character vector.
pub fn copy_chars(v: &Vec<char>) -> (r: Vec<char>)
    ensures
        r@ == v@,
{
    let mut r: Vec<char> = Vec::new();
    append_chars(&mut r, v);
    assert(Seq::<char>::empty() + v@ =~= v@);
    r
}

/// Equality of two character sequences.
pub fn eq_chars(a: &Vec<char>, b: &Vec<char>) -> (r: bool)
    ensures
        r == (a@ == b@),
{
    if a.len() != b.len() {
        return false;
    }
    let mut i: usize = 0;
    while i < a.len()
        invariant
            i <= a.len(),
            a.len() == b.len(),
            forall|k: int| 0 <= k < i ==> a@[k] == b@[k],
        decreases a.len() - i,
    {
        if a[i] != b[i] {
            return false;
        }
        i += 1;
    }
    assert(a@ =~= b@);
    true
}

/// Equality of a character vector and a string slice.
pub fn eq_str(a: &Vec<char>, b: &str) -> (r: bool)
    ensures
        r == (a@ == b@),
{
    let bv = chars_of(b);
    eq_chars(a, &bv)
}

/// Whether `needle` occurs contiguously in `hay`.
pub fn contains_chars(hay: &Vec<char>, needle: &Vec<char>) -> (r: bool)
    ensures
        r == contains_sub(hay@, needle@),
{
    if needle.len() > hay.len() {
        return false;
    }
    if needle.len() == 0 {
        assert(hay@.subrange(0int, 0int + needle@.len()) =~= needle@);
        return true;
    }
    let n = needle.len();
    let last = hay.len() - n;
    let mut i: usize = 0;
    while i <= last
        invariant
            n == needle.len(),
            last == hay.len() - n,
            i <= last + 1,
            forall|j: int| 0 <= j < i ==> #[trigger] hay@.subrange(j, j + needle@.len()) != needle@,
        decreases last + 1 - i,
    {
        let mut k: usize = 0;
        let mut ok = true;
        while k < n
            invariant
                n == needle.len(),
                i + n <= hay.len(),
                k <= n,
                ok == (forall|t: int| 0 <= t < k ==> hay@[i + t] == needle@[t]),
            decreases n - k,
        {
            if hay[i + k] != needle[k] {
                ok = false;
            }
            k += 1;
        }
        if ok {
            assert(hay@.subrange(i as int, i + n) =~= needle@);
            return true;
        }
        assert(hay@.subrange(i as int, i + n) != needle@) by {
            let t = choose|t: int| 0 <= t < n && hay@[i + t] != needle@[t];
            assert(hay@.subrange(i as int, i + n)[t] == hay@[i + t]);
        }
        i += 1;
    }
    assert forall|j: int| 0 <= j && j + needle@.len() <= hay@.len() implies #[trigger] hay@.subrange(
        j,
        j + needle@.len(),
    ) != needle@ by {
        assert(j <= last);
    }
    false
}

/// The maximal runs of characters whose mark is `false`.
pub fn split_runs(s: &Vec<char>, m: &Vec<bool>) -> (r: Vec<Vec<char>>)
    requires
        m.len() == s.len(),
    ensures
        views(r@) == runs(s@, m@),
{
    let mut out: Vec<Vec<char>> = Vec::new();
    let mut cur: Vec<char> = Vec::new();
    let mut i: usize = 0;
    while i < s.len()
        invariant
            i <= s.len(),
            m.len() == s.len(),
            cur@.len() > 0 <==> (i > 0 && !m@[i - 1]),
            (if cur@.len() > 0 {
                views(out@).push(cur@)
            } else {
                views(out@)
            }) == runs(s@.take(i as int), m@.take(i as int)),
        decreases s.len() - i,
    {
        let ghost pre_s = s@.take(i as int + 1);
        let ghost pre_m = m@.take(i as int + 1);
        assert(pre_s.drop_last() =~= s@.take(i as int));
        assert(pre_m.take(i as int) =~= m@.take(i as int));
        if m[i] {
            if cur.len() > 0 {
                let done = cur;
                cur = Vec::new();
                out.push(done);
                assert(views(out@) =~= views(out@.drop_last()).push(done@));
            }
        } else {
            let ghost before = if cur@.len() > 0 {
                views(out@).push(cur@)
            } else {
                views(out@)
            };
            cur.push(s[i]);
            if i > 0 && !m[i - 1] {
                assert(!pre_m[i - 1]);
                assert(views(out@).push(cur@) =~= before.update(before.len() - 1, before.last().push(s@[i as int])));
            } else {
                assert(cur@ =~= seq![s@[i as int]]);
                assert(views(out@).push(cur@) =~= before.push(seq![s@[i as int]]));
            }
        }
        i += 1;
    }
    if cur.len() > 0 {
        out.push(cur);
    }
    assert(s@.take(s.len() as int) =~= s@);
    assert(m@.take(m.len() as int) =~= m@);
    out
}

/// The whitespace-separated words of a character sequence.
pub fn split_words(s: &Vec<char>) -> (r: Vec<Vec<char>>)
    ensures
        views(r@) == words(s@),
{
    let mut m: Vec<bool> = Vec::new();
    let mut i: usize = 0;
    while i < s.len()
        invariant
            i <= s.len(),
            m@ == marks(s@, |c: char| is_ws(c)).take(i as int),
        decreases s.len() - i,
    {
        let b = char_is_whitespace(s[i]);
        m.push(b);
        assert(m@ =~= marks(s@, |c: char| is_ws(c)).take(i as int + 1));
        i += 1;
    }
    assert(m@ =~= marks(s@, |c: char| is_ws(c)));
    split_runs(s, &m)
}

/// The pieces of `parts` joined with `sep` between consecutive ones.
pub fn join_chars(parts: &Vec<Vec<char>>, sep: &Vec<char>) -> (r: Vec<char>)
    ensures
        r@ == join(views(parts@), sep@),
{
    let mut r: Vec<char> = Vec::new();
    let mut i: usize = 0;
    while i < parts.len()
        invariant
            i <= parts.len(),
            r@ == join(views(parts@).take(i as int), sep@),
        decreases parts.len() - i,
    {
        let ghost pv = views(parts@).take(i as int + 1);
        assert(pv.drop_last() =~= views(parts@).take(i as int));
        if i > 0 {
            append_chars(&mut r, sep);
        }
        append_chars(&mut r, &parts[i]);
        if i == 0 {
            assert(r@ =~= pv[0]);
        }
        i += 1;
    }
    assert(views(parts@).take(parts.len() as int) =~= views(parts@));
    r
}

/// The camel-case parts of a non-empty character sequence.
pub fn camel_parts(c: &Vec<char>) -> (r: Vec<Vec<char>>)
    requires
        c.len() > 0,
    ensures
        views(r@) == camel_split(c@),
{
    let mut out: Vec<Vec<char>> = Vec::new();
    let mut cur: Vec<char> = Vec::new();
    cur.push(c[0]);
    let mut i: usize = 1;
    assert(views(out@).push(cur@) =~= camel_upto(c@, 1));
    while i < c.len()
        invariant
            1 <= i <= c.len(),
            cur@.len() > 0,
            views(out@).push(cur@) == camel_upto(c@, i as nat),
        decreases c.len() - i,
    {
        let prev = c[i - 1];
        let cu = c[i];
        let pl = char_is_lowercase(prev);
        let cuu = char_is_uppercase(cu);
        let mut boundary = pl && cuu;
        if !boundary && i + 1 < c.len() {
            let pu = char_is_uppercase(prev);
            let nl = char_is_lowercase(c[i + 1]);
            boundary = pu && cuu && nl;
        }
        let ghost before = views(out@).push(cur@);
        assert(boundary == camel_boundary(c@, i as int));
        if boundary {
            let done = cur;
            cur = Vec::new();
            out.push(done);
            cur.push(cu);
            assert(views(out@).push(cur@) =~= before.push(seq![cu]));
        } else {
            cur.push(cu);
            assert(views(out@).push(cur@) =~= before.update(before.len() - 1, before.last().push(cu)));
        }
        i += 1;
    }
    out.push(cur);
    out
}

/// Inserts `x` after the last element (from the end) that is `le` it, so
/// that equal elements keep their order.
pub open spec fn insert_by<T>(s: Seq<T>, x: T, le: spec_fn(T, T) -> bool) -> Seq<T>
    decreases s.len(),
{
    if s.len() == 0 {
        seq![x]
    } else if le(s.last(), x) {
        s.push(x)
    } else {
        insert_by(s.drop_last(), x, le).push(s.last())
    }
}

/// The stable insertion sort of `s` under `le`.
pub open spec fn sort_by<T>(s: Seq<T>, le: spec_fn(T, T) -> bool) -> Seq<T>
    decreases s.len(),
{
    if s.len() == 0 {
        seq![]
    } else {
        insert_by(sort_by(s.drop_last(), le), s.last(), le)
    }
}

pub proof fn lemma_insert_by_shape<T>(s: Seq<T>, x: T, le: spec_fn(T, T) -> bool, k: int)
    requires
        0 <= k <= s.len(),
        forall|t: int| k <= t < s.len() ==> !le(#[trigger] s[t], x),
        k == 0 || le(s[k - 1], x),
    ensures
        insert_by(s, x, le) == s.take(k) + seq![x] + s.skip(k),
    decreases s.len(),
{
    if s.len() == 0 {
        assert(s.take(k) + seq![x] + s.skip(k) =~= seq![x]);
    } else if le(s.last(), x) {
        assert(k == s.len());
        assert(s.take(k) + seq![x] + s.skip(k) =~= s.push(x));
    } else {
        assert(!le(s[s.len() - 1], x));
        lemma_insert_by_shape(s.drop_last(), x, le, k);
        assert(s.drop_last().take(k) + seq![x] + s.drop_last().skip(k) + seq![s.last()] =~= s.take(k)
            + seq![x] + s.skip(k));
    }
}

/// Lexicographic comparison of character sequences by code point: negative,
/// zero or positive.
pub open spec fn chars_order(a: Seq<char>, b: Seq<char>) -> int
    decreases a.len(),
{
    if a.len() == 0 && b.len() == 0 {
        0
    } else if a.len() == 0 {
        -1
    } else if b.len() == 0 {
        1
    } else if (a[0] as u32) < (b[0] as u32) {
        -1
    } else if (a[0] as u32) > (b[0] as u32) {
        1
    } else {
        chars_order(a.drop_first(), b.drop_first())
    }
}

/// Compares two character sequences lexicographically by code point.
pub fn order_chars(a: &Vec<char>, b: &Vec<char>) -> (r: i8)
    ensures
        r as int == chars_order(a@, b@),
{
    let mut i: usize = 0;
    assert(a@.skip(0) =~= a@ && b@.skip(0) =~= b@);
    while i < a.len() && i < b.len()
        invariant
            i <= a@.len(),
            i <= b@.len(),
            chars_order(a@, b@) == chars_order(a@.skip(i as int), b@.skip(i as int)),
        decreases a@.len() - i,
    {
        let x = a[i] as u32;
        let y = b[i] as u32;
        if x < y {
            return -1;
        }
        if x > y {
            return 1;
        }
        assert(a@.skip(i as int).drop_first() =~= a@.skip(i as int + 1));
        assert(b@.skip(i as int).drop_first() =~= b@.skip(i as int + 1));
        i += 1;
    }
    if a.len() == b.len() {
        0
    } else if i == a.len() {
        -1
    } else {
        1
    }
}

/// Characters with the same code point are the same character.
pub proof fn lemma_char_code_injective(c: char, d: char)
    requires
        (c as u32) == (d as u32),
    ensures
        c == d,
{
    assert((c as u32) as int == c as int);
    assert((d as u32) as int == d as int);
}

/// `chars_order` is antisymmetric in sign and is zero exactly on equal
/// sequences.
pub proof fn lemma_chars_order_antisymmetric(a: Seq<char>, b: Seq<char>)
    ensures
        chars_order(a, b) == -chars_order(b, a),
        -1 <= chars_order(a, b) <= 1,
        chars_order(a, b) == 0 <==> a == b,
    decreases a.len(),
{
    if a.len() == 0 && b.len() == 0 {
        assert(a =~= b);
    } else if a.len() == 0 || b.len() == 0 {
    } else if (a[0] as u32) != (b[0] as u32) {
        assert(a[0] != b[0]);
    } else {
        lemma_chars_order_antisymmetric(a.drop_first(), b.drop_first());
        lemma_char_code_injective(a[0], b[0]);
        if a.drop_first() == b.drop_first() {
            assert(a =~= seq![a[0]] + a.drop_first());
            assert(b =~= seq![b[0]] + b.drop_first());
        }
    }
}

/// `chars_order` is transitive.
pub proof fn lemma_chars_order_transitive(a: Seq<char>, b: Seq<char>, c: Seq<char>)
    requires
        chars_order(a, b) < 0,
        chars_order(b, c) < 0,
    ensures
        chars_order(a, c) < 0,
    decreases a.len(),
{
    if a.len() == 0 || b.len() == 0 || c.len() == 0 {
    } else if (a[0] as u32) == (b[0] as u32) && (b[0] as u32) == (c[0] as u32) {
        lemma_chars_order_transitive(a.drop_first(), b.drop_first(), c.drop_first());
    }
}

/// Insertion into a sorted sequence keeps it sorted and adds exactly `x`.
pub proof fn lemma_insert_by_sorted<T>(s: Seq<T>, x: T, le: spec_fn(T, T) -> bool)
    requires
        vstd::relations::total_ordering(le),
        vstd::relations::sorted_by(s, le),
    ensures
        vstd::relations::sorted_by(insert_by(s, x, le), le),
        insert_by(s, x, le).to_multiset() == s.to_multiset().insert(x),
    decreases s.len(),
{
    broadcast use vstd::seq_lib::group_to_multiset_ensures;
    broadcast use vstd::multiset::group_multiset_axioms;

    if s.len() == 0 {
        assert(seq![x] =~= s.push(x));
    } else if le(s.last(), x) {
        assert forall|i: int, j: int| 0 <= i < j < s.len() + 1 implies #[trigger] le(
            s.push(x)[i],
            s.push(x)[j],
        ) by {
            if j == s.len() && i < s.len() - 1 {
                assert(le(s[i], s[s.len() - 1]));
            }
        }
    } else {
        let p = s.drop_last();
        let r = insert_by(p, x, le);
        lemma_insert_by_sorted(p, x, le);
        assert(s =~= p.push(s.last()));
        assert(le(x, s.last()));
        assert forall|i: int| 0 <= i < r.len() implies #[trigger] le(r[i], s.last()) by {
            assert(r.to_multiset().count(r[i]) > 0);
            if r[i] != x {
                assert(p.to_multiset().count(r[i]) > 0);
                let k = choose|k: int| 0 <= k < p.len() && p[k] == r[i];
                assert(le(s[k], s[s.len() - 1]));
            }
        }
        assert forall|i: int, j: int| 0 <= i < j < r.len() + 1 implies #[trigger] le(
            r.push(s.last())[i],
            r.push(s.last())[j],
        ) by {
            if j == r.len() {
                assert(le(r[i], s.last()));
            } else {
                assert(le(r[i], r[j]));
            }
        }
        assert(r.push(s.last()).to_multiset() =~= s.to_multiset().insert(x));
    }
}

/// The insertion sort yields a sorted permutation of its input.
pub proof fn lemma_sort_by_sorted<T>(s: Seq<T>, le: spec_fn(T, T) -> bool)
    requires
        vstd::relations::total_ordering(le),
    ensures
        vstd::relations::sorted_by(sort_by(s, le), le),
        sort_by(s, le).to_multiset() == s.to_multiset(),
    decreases s.len(),
{
    broadcast use vstd::seq_lib::group_to_multiset_ensures;

    if s.len() > 0 {
        lemma_sort_by_sorted(s.drop_last(), le);
        lemma_insert_by_sorted(sort_by(s.drop_last(), le), s.last(), le);
        assert(s =~= s.drop_last().push(s.last()));
    }
}

/// Under a total order the insertion sort depends only on the multiset of
/// its input: inputs that are permutations of each other sort alike.
pub proof fn lemma_sort_by_permutation<T>(s: Seq<T>, t: Seq<T>, le: spec_fn(T, T) -> bool)
    requires
        vstd::relations::total_ordering(le),
        s.to_multiset() == t.to_multiset(),
    ensures
        sort_by(s, le) == sort_by(t, le),
{
    lemma_sort_by_sorted(s, le);
    lemma_sort_by_sorted(t, le);
    vstd::seq_lib::lemma_sorted_unique(sort_by(s, le), sort_by(t, le), le);
}

/// The decimal digits of `n`.
pub open spec fn decimal(n: nat) -> Seq<char>
    decreases n,
{
    if n < 10 {
        seq![digit_char(n)]
    } else {
        decimal(n / 10).push(digit_char(n % 10))
    }
}

/// The lowercase hexadecimal digit for `d` (`d < 16`).
pub open spec fn digit_char(d: nat) -> char {
    if d == 0 {
        '0'
    } else if d == 1 {
        '1'
    } else if d == 2 {
        '2'
    } else if d == 3 {
        '3'
    } else if d == 4 {
        '4'
    } else if d == 5 {
        '5'
    } else if d == 6 {
        '6'
    } else if d == 7 {
        '7'
    } else if d == 8 {
        '8'
    } else if d == 9 {
        '9'
    } else if d == 10 {
        'a'
    } else if d == 11 {
        'b'
    } else if d == 12 {
        'c'
    } else if d == 13 {
        'd'
    } else if d == 14 {
        'e'
    } else {
        'f'
    }
}

/// The last `n` hexadecimal digits of `h`, lowercase, most significant first.
pub open spec fn hex_fixed(h: nat, n: nat) -> Seq<char>
    decreases n,
{
    if n == 0 {
        seq![]
    } else {
        hex_fixed(h / 16, (n - 1) as nat).push(digit_char(h % 16))
    }
}

fn digit(d: u64) -> (c: char)
    requires
        d < 16,
    ensures
        c == digit_char(d as nat),
{
    match d {
        0 => '0',
        1 => '1',
        2 => '2',
        3 => '3',
        4 => '4',
        5 => '5',
        6 => '6',
        7 => '7',
        8 => '8',
        9 => '9',
        10 => 'a',
        11 => 'b',
        12 => 'c',
        13 => 'd',
        14 => 'e',
        _ => 'f',
    }
}

/// Appends the decimal digits of `n`.
pub fn push_decimal(out: &mut Vec<char>, n: u64)
    ensures
        final(out)@ == old(out)@ + decimal(n as nat),
    decreases n,
{
    if n >= 10 {
        push_decimal(out, n / 10);
    }
    out.push(digit(n % 10));
    assert(final(out)@ =~= old(out)@ + decimal(n as nat));
}

/// The last `n` hexadecimal digits of `h`.
pub fn hex_digits(h: u64, n: usize) -> (r: Vec<char>)
    ensures
        r@ == hex_fixed(h as nat, n as nat),
    decreases n,
{
    if n == 0 {
        return Vec::new();
    }
    let mut v = hex_digits(h / 16, n - 1);
    v.push(digit(h % 16));
    v
}

/// The characters of `s` without leading and trailing whitespace.
pub fn trim_chars(s: &Vec<char>) -> (r: Vec<char>)
    ensures
        r@ == trim(s@),
{
    let mut a: usize = 0;
    assert(s@.skip(0) =~= s@);
    while a < s.len() && char_is_whitespace(s[a])
        invariant
            a <= s.len(),
            trim_start(s@) == trim_start(s@.skip(a as int)),
        decreases s.len() - a,
    {
        assert(s@.skip(a as int).drop_first() =~= s@.skip(a as int + 1));
        a += 1;
    }
    assert(trim_start(s@.skip(a as int)) == s@.skip(a as int));
    let mut b: usize = s.len();
    while b > a && char_is_whitespace(s[b - 1])
        invariant
            a <= b <= s.len(),
            trim_end(s@.skip(a as int)) == trim_end(s@.subrange(a as int, b as int)),
        decreases b,
    {
        assert(s@.subrange(a as int, b as int).drop_last() =~= s@.subrange(a as int, b as int - 1));
        b -= 1;
    }
    assert(s@.skip(a as int) =~= s@.subrange(a as int, s@.len() as int));
    let mut r: Vec<char> = Vec::new();
    let mut k: usize = a;
    while k < b
        invariant
            a <= k <= b,
            b <= s.len(),
            r@ == s@.subrange(a as int, k as int),
        decreases b - k,
    {
        r.push(s[k]);
        assert(r@ =~= s@.subrange(a as int, k as int + 1));
        k += 1;
    }
    r
}

/// The characters of `s` without trailing whitespace.
pub fn trim_end_chars(s: &Vec<char>) -> (r: Vec<char>)
    ensures
        r@ == trim_end(s@),
{
    let mut b: usize = s.len();
    assert(s@.subrange(0, b as int) =~= s@);
    while b > 0 && char_is_whitespace(s[b - 1])
        invariant
            b <= s.len(),
            trim_end(s@) == trim_end(s@.subrange(0, b as int)),
        decreases b,
    {
        assert(s@.subrange(0, b as int).drop_last() =~= s@.subrange(0, b as int - 1));
        b -= 1;
    }
    let mut r: Vec<char> = Vec::new();
    let mut k: usize = 0;
    while k < b
        invariant
            k <= b <= s.len(),
            r@ == s@.subrange(0, k as int),
        decreases b - k,
    {
        r.push(s[k]);
        assert(r@ =~= s@.subrange(0, k as int + 1));
        k += 1;
    }
    r
}


/// `s` without its leading `c`s.
pub open spec fn strip_leading(s: Seq<char>, c: char) -> Seq<char>
    decreases s.len(),
{
    if s.len() > 0 && s[0] == c {
        strip_leading(s.drop_first(), c)
    } else {
        s
    }
}

/// `s` without its trailing `c`s.
pub open spec fn strip_trailing(s: Seq<char>, c: char) -> Seq<char>
    decreases s.len(),
{
    if s.len() > 0 && s.last() == c {
        strip_trailing(s.drop_last(), c)
    } else {
        s
    }
}

/// `s` without the `c`s at either end.
pub open spec fn strip_char(s: Seq<char>, c: char) -> Seq<char> {
    strip_trailing(strip_leading(s, c), c)
}

/// `s` without the `c`s at either end.
pub fn strip_char_exec(s: &Vec<char>, c: char) -> (r: Vec<char>)
    ensures
        r@ == strip_char(s@, c),
{
    let mut lo: usize = 0;
    assert(s@.skip(0) =~= s@);
    while lo < s.len() && s[lo] == c
        invariant
            lo <= s.len(),
            strip_leading(s@, c) == strip_leading(s@.skip(lo as int), c),
        decreases s.len() - lo,
    {
        assert(s@.skip(lo as int).drop_first() =~= s@.skip(lo as int + 1));
        lo += 1;
    }
    let ghost head = strip_leading(s@, c);
    assert(head == s@.skip(lo as int));
    let mut hi: usize = s.len();
    assert(s@.skip(lo as int).take(hi - lo) =~= s@.skip(lo as int));
    while hi > lo && s[hi - 1] == c
        invariant
            lo <= hi <= s.len(),
            head == s@.skip(lo as int),
            strip_trailing(head, c) == strip_trailing(s@.subrange(lo as int, hi as int), c),
        decreases hi,
    {
        assert(s@.subrange(lo as int, hi as int).drop_last() =~= s@.subrange(lo as int, hi - 1));
        hi -= 1;
    }
    let mut r: Vec<char> = Vec::new();
    let mut i: usize = lo;
    while i < hi
        invariant
            lo <= i <= hi <= s.len(),
            r@ == s@.subrange(lo as int, i as int),
        decreases hi - i,
    {
        r.push(s[i]);
        assert(s@.subrange(lo as int, i + 1) =~= s@.subrange(lo as int, i as int).push(s@[i as int]));
        i += 1;
    }
    r
}

/// Whether a string slice holds exactly the characters of another.
pub fn same_text(a: &str, b: &str) -> (r: bool)
    ensures
        r == (a@ == b@),
{
    eq_str(&chars_of(a), b)
}

} // verus!
