use crate::kinds::{EdgeKind, NodeKind};
use vstd::prelude::*;

verus! {

/// Identifier of a node: the row id under which the graph stores it.
pub type NodeId = i64;

/// A symbol of the indexed code base.
#[derive(Debug)]
pub struct Node {
    pub id: NodeId,
    pub kind: NodeKind,
    pub name: String,
    pub qualified_name: Option<String>,
    pub file: String,
    pub start_line: u32,
    pub end_line: u32,
    pub signature: Option<String>,
    pub docstring: Option<String>,
    pub language: String,
}

/// A relation between two symbols.
#[derive(Debug)]
pub struct Edge {
    pub from: NodeId,
    pub to: NodeId,
    pub kind: EdgeKind,
    pub file: Option<String>,
    pub line: Option<u32>,
}

/// An indexed source file.
#[derive(Debug)]
pub struct FileRow {
    pub id: Option<i64>,
    pub path: String,
    pub language: String,
    pub sha256: String,
    pub size: u64,
    pub mtime: i64,
    pub indexed_at: i64,
}

/// A symbol found by an extractor, before it has been given an id.
#[derive(Debug)]
pub struct NodeDraft {
    pub kind: NodeKind,
    pub name: String,
    pub qualified_name: Option<String>,
    pub start_line: u32,
    pub end_line: u32,
    pub signature: Option<String>,
    pub docstring: Option<String>,
    pub language: String,
}

/// A relation to be stored, between two stored nodes.
#[derive(Debug)]
pub struct EdgeDraft {
    pub from_id: i64,
    pub to_id: i64,
    pub kind: EdgeKind,
    pub file_id: Option<i64>,
    pub line: Option<u32>,
    /// Where the relation comes from, e.g. "extract" or "resolver:name-match".
    pub source: Option<String>,
}

/// Size of the stored graph.
#[derive(Debug, Clone, Copy, PartialEq, Eq, Structural)]
pub struct DbStats {
    pub files: u64,
    pub nodes: u64,
    pub edges: u64,
    pub size_bytes: u64,
    pub schema_version: u32,
}

/// A copy of an optional string.
pub fn copy_opt_string(o: &Option<String>) -> (r: Option<String>)
    ensures
        r == *o,
{
    match o {
        Some(s) => Some(s.clone()),
        None => None,
    }
}

impl Node {
    /// A copy of this node.
    pub fn duplicate(&self) -> (r: Node)
        ensures
            r == *self,
    {
        Node {
            id: self.id,
            kind: self.kind,
            name: self.name.clone(),
            qualified_name: copy_opt_string(&self.qualified_name),
            file: self.file.clone(),
            start_line: self.start_line,
            end_line: self.end_line,
            signature: copy_opt_string(&self.signature),
            docstring: copy_opt_string(&self.docstring),
            language: self.language.clone(),
        }
    }
}

impl Edge {
    /// A copy of this edge.
    pub fn duplicate(&self) -> (r: Edge)
        ensures
            r == *self,
    {
        Edge {
            from: self.from,
            to: self.to,
            kind: self.kind,
            file: copy_opt_string(&self.file),
            line: self.line,
        }
    }
}

impl FileRow {
    /// A copy of this row.
    pub fn duplicate(&self) -> (r: FileRow)
        ensures
            r == *self,
    {
        FileRow {
            id: self.id,
            path: self.path.clone(),
            language: self.language.clone(),
            sha256: self.sha256.clone(),
            size: self.size,
            mtime: self.mtime,
            indexed_at: self.indexed_at,
        }
    }
}

impl NodeDraft {
    /// A copy of this draft.
    pub fn duplicate(&self) -> (r: NodeDraft)
        ensures
            r == *self,
    {
        NodeDraft {
            kind: self.kind,
            name: self.name.clone(),
            qualified_name: copy_opt_string(&self.qualified_name),
            start_line: self.start_line,
            end_line: self.end_line,
            signature: copy_opt_string(&self.signature),
            docstring: copy_opt_string(&self.docstring),
            language: self.language.clone(),
        }
    }
}

} // verus!
