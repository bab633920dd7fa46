//! Rows the index hands back to the engine.
use vstd::prelude::*;

verus! {

/// One indexed file.
#[derive(Debug, Clone)]
pub struct FileRecord {
    pub id: i64,
    pub path: String,
    pub language: String,
    pub content_hash: String,
    pub mtime_ns: i64,
    pub size_bytes: i64,
    pub token_count: Option<i64>,
}

/// One indexed symbol.
#[derive(Debug, Clone)]
pub struct NodeRecord {
    pub id: i64,
    pub file_id: i64,
    pub kind: String,
    pub name: String,
    pub qualified_name: Option<String>,
    pub signature: Option<String>,
    pub docstring: Option<String>,
    pub line_start: i64,
    pub line_end: i64,
    pub col_start: i64,
    pub col_end: i64,
    pub visibility: Option<String>,
    pub is_export: bool,
    pub metadata: Option<String>,
}

/// Counts over the whole index.
#[derive(Debug, Clone)]
pub struct IndexStats {
    pub file_count: i64,
    pub node_count: i64,
    pub edge_count: i64,
    pub unresolved_count: i64,
    /// (language, number of files), most files first.
    pub language_breakdown: Vec<(String, i64)>,
}

/// The cached skeletons of one file at each detail level.
#[derive(Debug, Clone)]
pub struct SkeletonCacheRow {
    pub path: String,
    pub skeleton_minimal: Option<String>,
    pub skeleton_standard: Option<String>,
    pub skeleton_detailed: Option<String>,
}

/// A symbol together with the path of its file.
#[derive(Debug, Clone)]
pub struct NodeQueryResult {
    pub name: String,
    pub qualified_name: Option<String>,
    pub kind: String,
    pub file_path: String,
    pub line_start: i64,
    pub line_end: i64,
    pub visibility: Option<String>,
    pub is_export: bool,
    pub signature: Option<String>,
    pub docstring: Option<String>,
}

/// One row of a file listing.
#[derive(Debug, Clone)]
pub struct FileListRecord {
    pub path: String,
    pub language: String,
    pub size_bytes: i64,
    pub token_count: Option<i64>,
    pub content_hash: String,
    pub indexed_at: String,
}

/// A reference that has not been tied to a target yet, with its source.
#[derive(Debug, Clone)]
pub struct UnresolvedRefRecord {
    pub source_name: String,
    pub source_qualified_name: Option<String>,
    pub source_file: String,
    pub target_name: String,
    pub target_qualified_name: Option<String>,
    pub edge_kind: String,
    pub import_path: Option<String>,
    pub context: Option<String>,
}

/// One stored session with the number of its observations.
#[derive(Debug, Clone)]
pub struct SessionListRecord {
    pub id: String,
    pub created_at: String,
    pub updated_at: String,
    pub compressed: bool,
    pub summary: Option<String>,
    pub observation_count: i64,
}

/// An exported symbol that a reference by name may point to.
#[derive(Debug, Clone)]
pub struct CandidateNode {
    pub id: i64,
    pub file_id: i64,
    pub kind: String,
    pub name: String,
    pub qualified_name: Option<String>,
    pub signature: Option<String>,
}

/// A resolved import: a file's edge to another file's symbol.
#[derive(Debug, Clone)]
pub struct ImportTarget {
    pub target_node_id: i64,
    pub target_file_id: i64,
    pub target_file_path: String,
}

/// Where a symbol lies, for budget allocation.
#[derive(Debug, Clone)]
pub struct NodeRange {
    pub node_id: i64,
    pub file_id: i64,
    pub file_path: String,
    pub line_start: i64,
    pub line_end: i64,
    pub kind: String,
    pub name: String,
    pub signature: Option<String>,
}

/// A symbol with the path of its file, for search results.
#[derive(Debug, Clone)]
pub struct NodeWithFile {
    pub node_id: i64,
    pub file_id: i64,
    pub name: String,
    pub qualified_name: Option<String>,
    pub kind: String,
    pub signature: Option<String>,
    pub file_path: String,
}

/// A file that imports from another file.
#[derive(Debug, Clone, Copy)]
pub struct ImportEdgeRecord {
    pub source_file_id: i64,
    pub target_file_id: i64,
}

} // verus!
