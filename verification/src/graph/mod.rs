//! The symbol graph's node payload and the decisions the graph engine makes
//! about symbols and edges.
use vstd::prelude::*;

use crate::types::{EdgeKind, NodeKind};

pub mod builder;
pub mod traversal;

verus! {

/// A symbol as held in the dependency graph.
#[derive(Debug, Clone)]
pub struct GraphNode {
    pub db_id: i64,
    pub name: String,
    pub qualified_name: Option<String>,
    pub kind: NodeKind,
    pub file_id: i64,
}

/// A relationship as held in the dependency graph: its kind and its
/// confidence in hundredths.
#[derive(Debug, Clone, Copy)]
pub struct GraphEdge {
    pub kind: EdgeKind,
    pub confidence: u32,
}

/// Whether a symbol is the one a user names: by its name or by its qualified
/// name.
pub open spec fn names_symbol(node: GraphNode, symbol: Seq<char>) -> bool {
    node.name@ == symbol || (node.qualified_name matches Some(q) && q@ == symbol)
}

/// How a symbol is shown: its qualified name when it has one, else its name.
pub open spec fn shown_name(node: GraphNode) -> Seq<char> {
    match node.qualified_name {
        Some(q) => q@,
        None => node.name@,
    }
}

impl GraphNode {
    /// Whether the user's `symbol` names this node (its name or its
    /// qualified name).
    pub fn matches_symbol(&self, symbol: &str) -> (r: bool)
        ensures
            r == names_symbol(*self, symbol@),
    {
        let sym = crate::text::chars_of(symbol);
        if crate::text::eq_chars(&crate::text::chars_of(self.name.as_str()), &sym) {
            return true;
        }
        match &self.qualified_name {
            Some(q) => crate::text::eq_chars(&crate::text::chars_of(q.as_str()), &sym),
            None => false,
        }
    }

    /// The name under which the node is shown.
    pub fn display_name(&self) -> (r: &str)
        ensures
            r@ == shown_name(*self),
    {
        match &self.qualified_name {
            Some(q) => q.as_str(),
            None => self.name.as_str(),
        }
    }
}

/// Whether an incremental graph update should give way to a full rebuild:
/// the graph is not empty and the changed symbols exceed a fifth of it.
pub fn needs_full_rebuild(total_nodes: usize, changed_nodes: usize) -> (r: bool)
    ensures
        r == (total_nodes > 0 && changed_nodes * 5 > total_nodes),
{
    total_nodes > 0 && changed_nodes > total_nodes / 5
}

/// Whether an edge kind links a pivot to a useful bridge: calls, imports,
/// implementations and extensions.
pub fn is_bridge_edge_kind(kind: EdgeKind) -> (r: bool)
    ensures
        r == (kind == EdgeKind::Calls || kind == EdgeKind::Imports || kind == EdgeKind::Implements
            || kind == EdgeKind::Extends),
{
    match kind {
        EdgeKind::Calls | EdgeKind::Imports | EdgeKind::Implements | EdgeKind::Extends => true,
        _ => false,
    }
}

/// Which way an impact query walks the graph.
#[derive(Debug, Clone, Copy, PartialEq, Eq, Structural)]
pub enum ImpactDirection {
    Callers,
    Callees,
    Both,
}

/// The direction named `s` (`callers`, `callees` or `both`), if any.
pub fn parse_direction(s: &str) -> (r: Option<ImpactDirection>)
    ensures
        r == (if s@ == "callers"@ {
            Some(ImpactDirection::Callers)
        } else if s@ == "callees"@ {
            Some(ImpactDirection::Callees)
        } else if s@ == "both"@ {
            Some(ImpactDirection::Both)
        } else {
            None
        }),
{
    proof {
        reveal_strlit("callers");
        reveal_strlit("callees");
        reveal_strlit("both");
        assert("callers"@.len() == 7 && "callees"@.len() == 7 && "both"@.len() == 4);
        assert("callers"@[5] == 'r' && "callees"@[5] == 'e');
    }
    let v = crate::text::chars_of(s);
    if crate::text::eq_str(&v, "callers") {
        Some(ImpactDirection::Callers)
    } else if crate::text::eq_str(&v, "callees") {
        Some(ImpactDirection::Callees)
    } else if crate::text::eq_str(&v, "both") {
        Some(ImpactDirection::Both)
    } else {
        None
    }
}

} // verus!
