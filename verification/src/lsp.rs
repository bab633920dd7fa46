//! The language-server protocol as far as the index uses it: message framing
//! and language identifiers.
use vstd::prelude::*;

use crate::text::{chars_of, decimal, eq_str, push_decimal, string_of, trim, trim_chars};
use vstd::utf8::encode_utf8;

verus! {

/// The part of `s` after its last `.` (all of `s` when it has none), as
/// `rsplit('.').next()` gives it.
pub open spec fn after_last_dot(s: Seq<char>) -> Seq<char>
    decreases s.len(),
{
    if s.len() == 0 {
        s
    } else if s.last() == '.' {
        Seq::empty()
    } else {
        after_last_dot(s.drop_last()).push(s.last())
    }
}

/// The language identifier announced to a language server for a file, from
/// the text after the file path's last `.`.
pub open spec fn language_id_of(file_path: Seq<char>) -> Seq<char> {
    let e = after_last_dot(file_path);
    if e == "rs"@ {
        "rust"@
    } else if e == "ts"@ || e == "tsx"@ {
        "typescript"@
    } else if e == "js"@ || e == "jsx"@ || e == "mjs"@ || e == "cjs"@ {
        "javascript"@
    } else if e == "py"@ || e == "pyi"@ {
        "python"@
    } else if e == "c"@ || e == "h"@ {
        "c"@
    } else if e == "cpp"@ || e == "cxx"@ || e == "cc"@ || e == "hpp"@ || e == "hxx"@ {
        "cpp"@
    } else if e == "html"@ || e == "htm"@ {
        "html"@
    } else {
        "plaintext"@
    }
}

fn after_last_dot_exec(s: &Vec<char>) -> (r: Vec<char>)
    ensures
        r@ == after_last_dot(s@),
{
    let mut k: usize = s.len();
    while k > 0 && s[k - 1] != '.'
        invariant
            k <= s@.len(),
            forall|j: int| k <= j < s@.len() ==> s@[j] != '.',
        decreases k,
    {
        k -= 1;
    }
    let mut r: Vec<char> = Vec::new();
    let mut j: usize = k;
    while j < s.len()
        invariant
            k <= j <= s@.len(),
            r@ == s@.subrange(k as int, j as int),
        decreases s.len() - j,
    {
        r.push(s[j]);
        assert(r@ =~= s@.subrange(k as int, j as int + 1));
        j += 1;
    }
    proof {
        lemma_after_last_dot(s@, k as int);
    }
    r
}

proof fn lemma_after_last_dot(s: Seq<char>, k: int)
    requires
        0 <= k <= s.len(),
        forall|j: int| k <= j < s.len() ==> s[j] != '.',
        k == 0 || s[k - 1] == '.',
    ensures
        after_last_dot(s) == s.subrange(k, s.len() as int),
    decreases s.len(),
{
    if s.len() == 0 {
    } else if s.last() == '.' {
        assert(k == s.len());
        assert(s.subrange(k, s.len() as int) =~= Seq::<char>::empty());
    } else {
        lemma_after_last_dot(s.drop_last(), k);
        assert(s.subrange(k, s.len() as int) =~= s.drop_last().subrange(k, s.len() - 1).push(s.last()));
    }
}

/// The language identifier announced to a language server for a file.
pub fn lsp_language_id(file_path: &str) -> (r: &'static str)
    ensures
        r@ == language_id_of(file_path@),
{
    let e = after_last_dot_exec(&chars_of(file_path));
    if eq_str(&e, "rs") {
        "rust"
    } else if eq_str(&e, "ts") || eq_str(&e, "tsx") {
        "typescript"
    } else if eq_str(&e, "js") || eq_str(&e, "jsx") || eq_str(&e, "mjs") || eq_str(&e, "cjs") {
        "javascript"
    } else if eq_str(&e, "py") || eq_str(&e, "pyi") {
        "python"
    } else if eq_str(&e, "c") || eq_str(&e, "h") {
        "c"
    } else if eq_str(&e, "cpp") || eq_str(&e, "cxx") || eq_str(&e, "cc") || eq_str(&e, "hpp") || eq_str(
        &e,
        "hxx",
    ) {
        "cpp"
    } else if eq_str(&e, "html") || eq_str(&e, "htm") {
        "html"
    } else {
        "plaintext"
    }
}

/// A message as sent to a language server: a `Content-Length` header giving
/// the body's size in UTF-8 bytes, a blank line, then the body.
pub open spec fn framed(body: Seq<char>) -> Seq<char> {
    "Content-Length: "@ + decimal(encode_utf8(body).len()) + "\r\n\r\n"@ + body
}

/// Frames a JSON-RPC body for a language server's standard input.
pub fn frame_message(body: &str) -> (r: String)
    ensures
        r@ == framed(body@),
{
    let n = body.as_bytes().len();
    let mut out: Vec<char> = chars_of("Content-Length: ");
    push_decimal(&mut out, n as u64);
    let mut s = string_of(&out);
    s.append("\r\n\r\n");
    s.append(body);
    s
}

/// The value of the decimal digits `d` (most significant first).
pub open spec fn digits_value(d: Seq<char>) -> int
    decreases d.len(),
{
    if d.len() == 0 {
        0
    } else {
        digits_value(d.drop_last()) * 10 + (d.last() as int - '0' as int)
    }
}

pub open spec fn all_digits(d: Seq<char>) -> bool {
    forall|i: int| 0 <= i < d.len() ==> '0' <= #[trigger] d[i] && d[i] <= '9'
}

/// `str::parse::<usize>`: an optional `+` and at least one decimal digit,
/// nothing else, whose value fits.
pub open spec fn parsed_usize(s: Seq<char>) -> Option<int> {
    let d = if s.len() > 0 && s[0] == '+' {
        s.skip(1)
    } else {
        s
    };
    if d.len() > 0 && all_digits(d) && digits_value(d) <= usize::MAX {
        Some(digits_value(d))
    } else {
        None
    }
}

/// The body length a header line announces: for a line that, trimmed, reads
/// `Content-Length: ` followed by a number, that number.
pub open spec fn announced_length(line: Seq<char>) -> Option<int> {
    let t = trim(line);
    let p = "Content-Length: "@;
    if t.len() >= p.len() && t.take(p.len() as int) == p {
        parsed_usize(t.skip(p.len() as int))
    } else {
        None
    }
}

proof fn lemma_digits_value_nonneg(d: Seq<char>)
    requires
        all_digits(d),
    ensures
        digits_value(d) >= 0,
    decreases d.len(),
{
    if d.len() > 0 {
        assert(all_digits(d.drop_last())) by {
            assert forall|i: int| 0 <= i < d.drop_last().len() implies '0' <= #[trigger] d.drop_last()[i]
                && d.drop_last()[i] <= '9' by {
                assert(d.drop_last()[i] == d[i]);
            }
        }
        lemma_digits_value_nonneg(d.drop_last());
    }
}

fn parse_usize(s: &Vec<char>, from: usize) -> (r: Option<usize>)
    requires
        from <= s@.len(),
    ensures
        match r {
            Some(v) => parsed_usize(s@.skip(from as int)) == Some(v as int),
            None => parsed_usize(s@.skip(from as int)) is None,
        },
{
    let ghost t = s@.skip(from as int);
    let mut i: usize = from;
    if i < s.len() && s[i] == '+' {
        i += 1;
    }
    let ghost d = s@.skip(i as int);
    assert(d =~= (if t.len() > 0 && t[0] == '+' { t.skip(1) } else { t }));
    if i >= s.len() {
        assert(d.len() == 0);
        return None;
    }
    let mut v: usize = 0;
    let mut j: usize = i;
    while j < s.len()
        invariant
            i <= j <= s@.len(),
            d == s@.skip(i as int),
            t == s@.skip(from as int),
            d == (if t.len() > 0 && t[0] == '+' { t.skip(1) } else { t }),
            d.len() > 0,
            all_digits(s@.subrange(i as int, j as int)),
            v as int == digits_value(s@.subrange(i as int, j as int)),
        decreases s.len() - j,
    {
        let c = s[j];
        if c < '0' || c > '9' {
            assert(d[j - i] == c);
            assert(!all_digits(d));
            return None;
        }
        let digit = (c as u32 - '0' as u32) as usize;
        let ghost prefix = s@.subrange(i as int, j as int + 1);
        assert(prefix.drop_last() =~= s@.subrange(i as int, j as int));
        assert(all_digits(prefix)) by {
            assert forall|k: int| 0 <= k < prefix.len() implies '0' <= #[trigger] prefix[k] && prefix[k] <= '9' by {
                if k < prefix.len() - 1 {
                    assert(prefix[k] == s@.subrange(i as int, j as int)[k]);
                }
            }
        }
        if v > (usize::MAX - digit) / 10 {
            proof {
                assert(digits_value(prefix) == v * 10 + digit);
                assert(v * 10 + digit > usize::MAX) by (nonlinear_arith)
                    requires
                        v > (usize::MAX - digit) / 10,
                        digit <= 9,
                ;
                assert(d.take(j - i + 1) =~= prefix);
                lemma_prefix_value_le(d, (j - i + 1) as int);
                assert(parsed_usize(t) is None);
            }
            return None;
        }
        assert(v * 10 + digit <= usize::MAX) by (nonlinear_arith)
            requires
                v <= (usize::MAX - digit) / 10,
                digit <= 9,
        ;
        v = v * 10 + digit;
        j += 1;
    }
    assert(s@.subrange(i as int, s@.len() as int) =~= d);
    Some(v)
}

proof fn lemma_prefix_value_le(d: Seq<char>, n: int)
    requires
        0 <= n <= d.len(),
        all_digits(d.take(n)),
    ensures
        all_digits(d) ==> digits_value(d.take(n)) <= digits_value(d),
    decreases d.len() - n,
{
    if n < d.len() && all_digits(d) {
        assert(all_digits(d.take(n + 1))) by {
            assert forall|i: int| 0 <= i < d.take(n + 1).len() implies '0' <= #[trigger] d.take(n + 1)[i]
                && d.take(n + 1)[i] <= '9' by {
                assert(d.take(n + 1)[i] == d[i]);
            }
        }
        lemma_prefix_value_le(d, n + 1);
        assert(d.take(n + 1).drop_last() =~= d.take(n));
        lemma_digits_value_nonneg(d.take(n));
        assert(digits_value(d.take(n + 1)) == digits_value(d.take(n)) * 10 + (d[n] as int - '0' as int));
    } else if n == d.len() {
        assert(d.take(n) =~= d);
    }
}

/// The body length announced by a header line from a language server, if
/// the line is a `Content-Length` header with a valid number.
pub fn content_length_of(line: &str) -> (r: Option<usize>)
    ensures
        match r {
            Some(v) => announced_length(line@) == Some(v as int),
            None => announced_length(line@) is None,
        },
{
    let t = trim_chars(&chars_of(line));
    let p = chars_of("Content-Length: ");
    proof {
        reveal_strlit("Content-Length: ");
    }
    if t.len() < p.len() {
        return None;
    }
    let mut k: usize = 0;
    while k < p.len()
        invariant
            k <= p@.len(),
            p@.len() <= t@.len(),
            p@ == "Content-Length: "@,
            t@ == trim(line@),
            forall|j: int| 0 <= j < k ==> t@[j] == p@[j],
        decreases p.len() - k,
    {
        if t[k] != p[k] {
            assert(t@.take(p@.len() as int)[k as int] != p@[k as int]);
            assert(t@.take(p@.len() as int) != "Content-Length: "@);
            assert(announced_length(line@) is None);
            return None;
        }
        k += 1;
    }
    assert(t@.take(p@.len() as int) =~= p@);
    parse_usize(&t, p.len())
}

} // verus!
