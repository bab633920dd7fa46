//! The git hooks that keep the index current, and how they join hooks that
//! are already installed.
use vstd::prelude::*;

use crate::text::{chars_of, contains_chars, contains_sub, string_of, trim_end, trim_end_chars};

verus! {

/// The pre-commit hook: flushes the write-ahead log before a commit.
pub open spec fn pre_commit_script(binary: Seq<char>) -> Seq<char> {
    "#!/bin/sh\n# Vexp: Flush WAL before commit\nif command -v "@ + binary
        + " >/dev/null 2>&1; then\n    "@ + binary + " flush-wal 2>/dev/null || true\nfi\n"@
}

/// The post-merge hook: re-indexes in the background after a merge.
pub open spec fn post_merge_script(binary: Seq<char>) -> Seq<char> {
    "#!/bin/sh\n# Vexp: Re-index after merge\nif command -v "@ + binary
        + " >/dev/null 2>&1; then\n    "@ + binary + " reindex 2>/dev/null &\nfi\n"@
}

/// The post-checkout hook: re-indexes in the background after a branch
/// switch (not after a file checkout).
pub open spec fn post_checkout_script(binary: Seq<char>) -> Seq<char> {
    "#!/bin/sh\n# Vexp: Re-index after branch switch\n# Only run on branch checkout (not file checkout)\nif [ \"$3\" = \"1\" ]; then\n    if command -v "@
        + binary + " >/dev/null 2>&1; then\n        "@ + binary
        + " reindex 2>/dev/null &\n    fi\nfi\n"@
}

/// The text of the pre-commit hook for the given binary.
pub fn pre_commit_hook(binary: &str) -> (r: String)
    ensures
        r@ == pre_commit_script(binary@),
{
    let mut s = "#!/bin/sh\n# Vexp: Flush WAL before commit\nif command -v ".to_owned();
    s.append(binary);
    s.append(" >/dev/null 2>&1; then\n    ");
    s.append(binary);
    s.append(" flush-wal 2>/dev/null || true\nfi\n");
    s
}

/// The text of the post-merge hook for the given binary.
pub fn post_merge_hook(binary: &str) -> (r: String)
    ensures
        r@ == post_merge_script(binary@),
{
    let mut s = "#!/bin/sh\n# Vexp: Re-index after merge\nif command -v ".to_owned();
    s.append(binary);
    s.append(" >/dev/null 2>&1; then\n    ");
    s.append(binary);
    s.append(" reindex 2>/dev/null &\nfi\n");
    s
}

/// The text of the post-checkout hook for the given binary.
pub fn post_checkout_hook(binary: &str) -> (r: String)
    ensures
        r@ == post_checkout_script(binary@),
{
    let mut s = "#!/bin/sh\n# Vexp: Re-index after branch switch\n# Only run on branch checkout (not file checkout)\nif [ \"$3\" = \"1\" ]; then\n    if command -v ".to_owned();
    s.append(binary);
    s.append(" >/dev/null 2>&1; then\n        ");
    s.append(binary);
    s.append(" reindex 2>/dev/null &\n    fi\nfi\n");
    s
}

/// The marker that identifies a hook written by this tool.
pub open spec fn hook_marker() -> Seq<char> {
    "Vexp:"@
}

/// What a hook file should hold after installing `content`: a hook of ours
/// (or no hook) is replaced; someone else's hook is kept, its trailing
/// whitespace trimmed, followed by a blank line and `content`.
pub open spec fn installed_hook(existing: Option<Seq<char>>, content: Seq<char>) -> Seq<char> {
    match existing {
        Some(e) => if contains_sub(e, hook_marker()) {
            content
        } else {
            trim_end(e) + "\n\n"@ + content
        },
        None => content,
    }
}

/// The text to write to a hook file that currently holds `existing` (if it
/// exists), when installing `content`.
pub fn hook_file_text(existing: Option<&str>, content: &str) -> (r: String)
    ensures
        r@ == installed_hook(
            match existing {
                Some(e) => Some(e@),
                None => None,
            },
            content@,
        ),
{
    match existing {
        Some(e) => {
            let ev = chars_of(e);
            let marker = chars_of("Vexp:");
            if contains_chars(&ev, &marker) {
                content.to_owned()
            } else {
                let t = trim_end_chars(&ev);
                let mut s = string_of(&t);
                s.append("\n\n");
                s.append(content);
                s
            }
        },
        None => content.to_owned(),
    }
}

} // verus!
