//! Decisions of the indexing pipeline that sit between its reads and writes:
//! fingerprints of file contents and of the whole tree, which files to parse
//! again, and which rows an extraction result turns into.
use vstd::prelude::*;

use crate::indexer::extractor::{xxh3_64, xxh3_64_of, ExtractedEdge, ExtractedFile, UnresolvedRef};
use crate::indexer::structural_diff::StructuralChange;
use crate::text::{flatten, hex_digits, hex_fixed, string_of};
use crate::config::{bexpConfig, excluded_by, path_components};
use crate::indexer::scanner::{extension_opt, path_extension};
use crate::types::{language_of_extension, EdgeKind, Language};
use vstd::utf8::encode_utf8;

verus! {

/// What one indexing run did.
#[derive(Debug)]
pub struct IndexReport {
    pub file_count: usize,
    pub node_count: usize,
    pub edge_count: usize,
    pub changed_file_ids: Vec<i64>,
    pub structural_changes: Vec<StructuralChange>,
    pub structure_skip_count: usize,
}

impl IndexReport {
    /// The report of a run that found nothing to do.
    pub fn unchanged() -> (r: IndexReport)
        ensures
            r.file_count == 0,
            r.node_count == 0,
            r.edge_count == 0,
            r.changed_file_ids@.len() == 0,
            r.structural_changes@.len() == 0,
            r.structure_skip_count == 0,
    {
        IndexReport {
            file_count: 0,
            node_count: 0,
            edge_count: 0,
            changed_file_ids: Vec::new(),
            structural_changes: Vec::new(),
            structure_skip_count: 0,
        }
    }
}

/// Sixteen lowercase hex digits of the XXH3 hash of the text's UTF-8 bytes.
pub open spec fn content_hash_of(text: Seq<char>) -> Seq<char> {
    hex_fixed(xxh3_64_of(encode_utf8(text)) as nat, 16)
}

/// The content hash stored for a file: its XXH3 hash as sixteen lowercase
/// hex digits.
pub fn content_hash(content: &str) -> (r: String)
    ensures
        r@ == content_hash_of(content@),
{
    let h = xxh3_64(content.as_bytes());
    let hex = hex_digits(h, 16);
    string_of(&hex)
}

/// The eight little-endian bytes of a signed 64-bit integer.
pub open spec fn le_bytes(x: i64) -> Seq<u8> {
    let u = x as u64;
    seq![
        (u & 0xff) as u8,
        ((u >> 8u64) & 0xff) as u8,
        ((u >> 16u64) & 0xff) as u8,
        ((u >> 24u64) & 0xff) as u8,
        ((u >> 32u64) & 0xff) as u8,
        ((u >> 40u64) & 0xff) as u8,
        ((u >> 48u64) & 0xff) as u8,
        ((u >> 56u64) & 0xff) as u8,
    ]
}

pub open spec fn entry_bytes(e: (String, i64)) -> Seq<u8> {
    encode_utf8(e.0@) + le_bytes(e.1)
}

/// Sixteen lowercase hex digits of the XXH3 hash over each (relative path,
/// modification time) entry in order: the path's UTF-8 bytes followed by the
/// time's eight little-endian bytes.
pub open spec fn tree_fingerprint(entries: Seq<(String, i64)>) -> Seq<char> {
    hex_fixed(xxh3_64_of(flatten(entries.map_values(|e: (String, i64)| entry_bytes(e)))) as nat, 16)
}

fn push_le_bytes(out: &mut Vec<u8>, x: i64)
    ensures
        final(out)@ == old(out)@ + le_bytes(x),
{
    let u = x as u64;
    out.push((u & 0xff) as u8);
    out.push(((u >> 8u64) & 0xff) as u8);
    out.push(((u >> 16u64) & 0xff) as u8);
    out.push(((u >> 24u64) & 0xff) as u8);
    out.push(((u >> 32u64) & 0xff) as u8);
    out.push(((u >> 40u64) & 0xff) as u8);
    out.push(((u >> 48u64) & 0xff) as u8);
    out.push(((u >> 56u64) & 0xff) as u8);
    assert(final(out)@ =~= old(out)@ + le_bytes(x));
}

/// The fingerprint of the tree's files, given their (relative path,
/// modification time in nanoseconds) in path order; a full index is skipped
/// while it matches the stored one.
pub fn mtime_fingerprint(entries: &[(String, i64)]) -> (r: String)
    ensures
        r@ == tree_fingerprint(entries@),
{
    let ghost parts = entries@.map_values(|e: (String, i64)| entry_bytes(e));
    let mut data: Vec<u8> = Vec::new();
    let mut i: usize = 0;
    while i < entries.len()
        invariant
            i <= entries@.len(),
            parts == entries@.map_values(|e: (String, i64)| entry_bytes(e)),
            data@ == flatten(parts.take(i as int)),
        decreases entries.len() - i,
    {
        let e = &entries[i];
        let ghost before = data@;
        let bytes = e.0.as_str().as_bytes();
        let mut k: usize = 0;
        while k < bytes.len()
            invariant
                k <= bytes@.len(),
                data@ == before + bytes@.take(k as int),
            decreases bytes.len() - k,
        {
            data.push(bytes[k]);
            assert(bytes@.take(k as int + 1) =~= bytes@.take(k as int).push(bytes@[k as int]));
            k += 1;
        }
        assert(bytes@.take(bytes@.len() as int) =~= bytes@);
        push_le_bytes(&mut data, e.1);
        assert(parts.take(i as int + 1).drop_last() =~= parts.take(i as int));
        assert(data@ =~= before + entry_bytes(*e));
        i += 1;
    }
    assert(parts.take(entries@.len() as int) =~= parts);
    let h = xxh3_64(data.as_slice());
    let hex = hex_digits(h, 16);
    string_of(&hex)
}

/// A file is parsed again unless its stored modification time equals the
/// current one.
pub fn should_parse(stored_mtime: Option<i64>, current_mtime: i64) -> (r: bool)
    ensures
        r == (stored_mtime != Some(current_mtime)),
{
    match stored_mtime {
        Some(m) => m != current_mtime,
        None => true,
    }
}

/// Whether a file's content is within the size limit for indexing.
pub fn within_size_limit(content: &str, max_file_size: usize) -> (r: bool)
    ensures
        r == (encode_utf8(content@).len() <= max_file_size),
{
    content.as_bytes().len() <= max_file_size
}

/// An edge row to store: endpoints are symbol ids.
#[derive(Debug, Clone)]
pub struct EdgeRow {
    pub source_node_id: i64,
    pub target_node_id: i64,
    pub kind: EdgeKind,
    /// In hundredths.
    pub confidence: u32,
    pub context: Option<String>,
}

/// An unresolved-reference row to store.
#[derive(Debug, Clone)]
pub struct RefRow {
    pub source_node_id: i64,
    pub target_name: String,
    pub target_qualified_name: Option<String>,
    pub edge_kind: EdgeKind,
    pub import_path: Option<String>,
    pub context: Option<String>,
}

/// The rows an extraction result turns into once its symbols have ids.
#[derive(Debug)]
pub struct FileRows {
    pub edges: Vec<EdgeRow>,
    pub refs: Vec<RefRow>,
}

pub open spec fn edge_row_of(e: ExtractedEdge, ids: Seq<i64>) -> EdgeRow {
    EdgeRow {
        source_node_id: ids[e.source_idx as int],
        target_node_id: ids[e.target_idx as int],
        kind: e.kind,
        confidence: e.confidence,
        context: e.context,
    }
}

pub open spec fn ref_row_of(u: UnresolvedRef, ids: Seq<i64>) -> RefRow {
    RefRow {
        source_node_id: ids[u.source_idx as int],
        target_name: u.target_name,
        target_qualified_name: u.target_qualified_name,
        edge_kind: u.edge_kind,
        import_path: u.import_path,
        context: u.context,
    }
}

/// The edges whose both ends are stored symbols, with their ids.
pub open spec fn edge_rows(edges: Seq<ExtractedEdge>, ids: Seq<i64>) -> Seq<EdgeRow>
    decreases edges.len(),
{
    if edges.len() == 0 {
        Seq::empty()
    } else {
        let e = edges.last();
        let rest = edge_rows(edges.drop_last(), ids);
        if e.source_idx < ids.len() && e.target_idx < ids.len() {
            rest.push(edge_row_of(e, ids))
        } else {
            rest
        }
    }
}

/// The references whose source is a stored symbol, with its id.
pub open spec fn ref_rows(refs: Seq<UnresolvedRef>, ids: Seq<i64>) -> Seq<RefRow>
    decreases refs.len(),
{
    if refs.len() == 0 {
        Seq::empty()
    } else {
        let u = refs.last();
        let rest = ref_rows(refs.drop_last(), ids);
        if u.source_idx < ids.len() {
            rest.push(ref_row_of(u, ids))
        } else {
            rest
        }
    }
}

fn clone_opt(o: &Option<String>) -> (r: Option<String>)
    ensures
        r == *o,
{
    match o {
        Some(s) => Some(s.clone()),
        None => None,
    }
}

/// Given the ids the extracted symbols were stored under (in order), the
/// edges and references to store: those whose symbols were stored, with
/// indices replaced by ids, in their original order.
pub fn plan_file_rows(node_ids: &Vec<i64>, extracted: &ExtractedFile) -> (r: FileRows)
    ensures
        r.edges@ == edge_rows(extracted.edges@, node_ids@),
        r.refs@ == ref_rows(extracted.unresolved_refs@, node_ids@),
{
    let mut edges: Vec<EdgeRow> = Vec::new();
    let mut i: usize = 0;
    while i < extracted.edges.len()
        invariant
            i <= extracted.edges@.len(),
            edges@ == edge_rows(extracted.edges@.take(i as int), node_ids@),
        decreases extracted.edges.len() - i,
    {
        let e = &extracted.edges[i];
        assert(extracted.edges@.take(i as int + 1).drop_last() =~= extracted.edges@.take(i as int));
        if e.source_idx < node_ids.len() && e.target_idx < node_ids.len() {
            let row = EdgeRow {
                source_node_id: node_ids[e.source_idx],
                target_node_id: node_ids[e.target_idx],
                kind: e.kind,
                confidence: e.confidence,
                context: clone_opt(&e.context),
            };
            assert(row == edge_row_of(*e, node_ids@));
            edges.push(row);
        }
        i += 1;
    }
    assert(extracted.edges@.take(extracted.edges@.len() as int) =~= extracted.edges@);
    let mut refs: Vec<RefRow> = Vec::new();
    let mut j: usize = 0;
    while j < extracted.unresolved_refs.len()
        invariant
            j <= extracted.unresolved_refs@.len(),
            refs@ == ref_rows(extracted.unresolved_refs@.take(j as int), node_ids@),
        decreases extracted.unresolved_refs.len() - j,
    {
        let u = &extracted.unresolved_refs[j];
        assert(extracted.unresolved_refs@.take(j as int + 1).drop_last() =~= extracted.unresolved_refs@.take(
            j as int,
        ));
        if u.source_idx < node_ids.len() {
            let row = RefRow {
                source_node_id: node_ids[u.source_idx],
                target_name: u.target_name.clone(),
                target_qualified_name: clone_opt(&u.target_qualified_name),
                edge_kind: u.edge_kind,
                import_path: clone_opt(&u.import_path),
                context: clone_opt(&u.context),
            };
            assert(row == ref_row_of(*u, node_ids@));
            refs.push(row);
        }
        j += 1;
    }
    assert(extracted.unresolved_refs@.take(extracted.unresolved_refs@.len() as int)
        =~= extracted.unresolved_refs@);
    FileRows { edges, refs }
}

/// Whether a changed file concerns the index: its path relative to its root
/// is not excluded and its extension names a known language.
pub fn watched_change(config: &bexpConfig, relative: &str, path: &str) -> (r: bool)
    ensures
        r == (!excluded_by(path_components(relative@), config.exclude_patterns@.map_values(|s: String| s@))
            && (extension_opt(path@) matches Some(e) && language_of_extension(e) is Some)),
{
    if config.is_excluded(relative) {
        return false;
    }
    match path_extension(path) {
        Some(ext) => Language::from_extension(ext.as_str()).is_some(),
        None => false,
    }
}

} // verus!
