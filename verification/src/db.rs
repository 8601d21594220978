//! The graph store: files, symbols and relations, held in memory.

use crate::error::Error;
use crate::kinds::{EdgeKind, NodeKind};
use crate::text::{contains_ci, contains_chars, chars_of, str_eq};
use crate::paths::{path_under, path_under_exec, prefix_target, prefix_target_exec};
use crate::model::{copy_opt_string, DbStats, Edge, EdgeDraft, FileRow, Node, NodeDraft, NodeId};
use vstd::prelude::*;

verus! {

/// Version of the storage layout.
pub const SCHEMA_VERSION: u32 = 1;

/// A stored symbol together with the file it was extracted from.
#[derive(Debug)]
pub struct NodeRow {
    pub node: Node,
    pub file_id: i64,
}

/// A stored relation together with the file and pass that produced it.
#[derive(Debug)]
pub struct EdgeRow {
    pub edge: Edge,
    pub file_id: Option<i64>,
    pub source: Option<String>,
}

/// The graph store.
pub struct Db {
    files: Vec<FileRow>,
    nodes: Vec<NodeRow>,
    edges: Vec<EdgeRow>,
    next_file_id: i64,
    next_node_id: i64,
    root: String,
}

/// Whether an edge leaves (`forward`) or enters (`!forward`) node `id`
/// with one of the given kinds.
pub open spec fn edge_selected(e: Edge, id: NodeId, kinds: Seq<EdgeKind>, forward: bool) -> bool {
    &&& kinds.contains(e.kind)
    &&& if forward { e.from == id } else { e.to == id }
}

/// Whether `n` matches the text query `q`.
pub open spec fn matches_query(n: Node, q: Seq<char>) -> bool {
    &&& q.len() > 0
    &&& {
        ||| contains_ci(n.name@, q)
        ||| (n.qualified_name matches Some(s) && contains_ci(s@, q))
        ||| (n.signature matches Some(s) && contains_ci(s@, q))
        ||| (n.docstring matches Some(s) && contains_ci(s@, q))
    }
}


/// Position of the stored file with path `p` (meaningful when `has_path`).
pub open spec fn path_index(rows: Seq<FileRow>, p: Seq<char>) -> int {
    choose|i: int| 0 <= i < rows.len() && (#[trigger] rows[i]).path@ == p
}

/// Whether a file with path `p` is stored.
pub open spec fn has_path(rows: Seq<FileRow>, p: Seq<char>) -> bool {
    exists|i: int| 0 <= i < rows.len() && (#[trigger] rows[i]).path@ == p
}

/// Position of the stored file with id `id` (meaningful when `has_file_id`).
pub open spec fn file_id_index(rows: Seq<FileRow>, id: i64) -> int {
    choose|i: int| 0 <= i < rows.len() && (#[trigger] rows[i]).id == Some(id)
}

/// Whether a file with id `id` is stored.
pub open spec fn has_file_id(rows: Seq<FileRow>, id: i64) -> bool {
    exists|i: int| 0 <= i < rows.len() && (#[trigger] rows[i]).id == Some(id)
}

/// `f` stored under id `id`.
pub open spec fn with_id(f: FileRow, id: i64) -> FileRow {
    FileRow {
        id: Some(id),
        path: f.path,
        language: f.language,
        sha256: f.sha256,
        size: f.size,
        mtime: f.mtime,
        indexed_at: f.indexed_at,
    }
}

/// The symbol stored for draft `d` under id `id` in the file at `file`.
pub open spec fn node_of_draft(d: NodeDraft, id: NodeId, file: String) -> Node {
    Node {
        id,
        kind: d.kind,
        name: d.name,
        qualified_name: d.qualified_name,
        file,
        start_line: d.start_line,
        end_line: d.end_line,
        signature: d.signature,
        docstring: d.docstring,
        language: d.language,
    }
}

/// The row stored for relation draft `d`, whose file has path `file`.
pub open spec fn edge_row_of_draft(d: EdgeDraft, file: Option<String>) -> EdgeRow {
    EdgeRow {
        edge: Edge { from: d.from_id, to: d.to_id, kind: d.kind, file, line: d.line },
        file_id: d.file_id,
        source: d.source,
    }
}


/// The path of the stored file with id `fid`, if the relation names one.
pub open spec fn edge_file_path(rows: Seq<FileRow>, fid: Option<i64>) -> Option<String> {
    match fid {
        Some(f) => Some(rows[file_id_index(rows, f)].path),
        None => None,
    }
}

/// Whether every file id named by the drafts is stored.
pub open spec fn edge_files_known(rows: Seq<FileRow>, drafts: Seq<EdgeDraft>) -> bool {
    forall|k: int| 0 <= k < drafts.len() ==> match (#[trigger] drafts[k]).file_id {
        Some(f) => has_file_id(rows, f),
        None => true,
    }
}

/// Whether a symbol of file `fid` has id `x`.
pub open spec fn node_of_file(rows: Seq<NodeRow>, fid: i64, x: NodeId) -> bool {
    exists|j: int| 0 <= j < rows.len() && (#[trigger] rows[j]).file_id == fid && rows[j].node.id == x
}

/// Whether a relation survives the removal of file `fid`.
pub open spec fn edge_survives(rows: Seq<NodeRow>, fid: i64, r: EdgeRow) -> bool {
    &&& r.file_id != Some(fid)
    &&& !node_of_file(rows, fid, r.edge.from)
    &&& !node_of_file(rows, fid, r.edge.to)
}

impl Db {
    pub closed spec fn file_rows(&self) -> Seq<FileRow> {
        self.files@
    }

    pub closed spec fn node_rows(&self) -> Seq<NodeRow> {
        self.nodes@
    }

    pub closed spec fn edge_rows(&self) -> Seq<EdgeRow> {
        self.edges@
    }

    pub closed spec fn next_file(&self) -> i64 {
        self.next_file_id
    }

    pub closed spec fn next_node(&self) -> i64 {
        self.next_node_id
    }

    /// The workspace root against which relative path prefixes are read.
    pub closed spec fn workspace_root(&self) -> Seq<char> {
        self.root@
    }

    /// The stored symbols.
    pub open spec fn node_seq(&self) -> Seq<Node> {
        self.node_rows().map_values(|r: NodeRow| r.node)
    }

    /// The stored relations.
    pub open spec fn edge_seq(&self) -> Seq<Edge> {
        self.edge_rows().map_values(|r: EdgeRow| r.edge)
    }

    /// Whether a symbol with this id is stored.
    pub open spec fn has_node(&self, id: NodeId) -> bool {
        exists|i: int| 0 <= i < self.node_rows().len() && #[trigger] self.node_rows()[i].node.id == id
    }

    /// Well-formedness: ids are positive, distinct and below the next fresh
    /// id; file paths are distinct.
    pub open spec fn wf(&self) -> bool {
        &&& 1 <= self.next_file()
        &&& 1 <= self.next_node()
        &&& forall|i: int| 0 <= i < self.file_rows().len() ==> {
            &&& (#[trigger] self.file_rows()[i]).id is Some
            &&& 1 <= self.file_rows()[i].id.unwrap() < self.next_file()
        }
        &&& forall|i: int, j: int| 0 <= i < j < self.file_rows().len() ==>
            #[trigger] self.file_rows()[i].id != #[trigger] self.file_rows()[j].id
            && self.file_rows()[i].path@ != self.file_rows()[j].path@
        &&& forall|i: int| 0 <= i < self.node_rows().len() ==>
            1 <= (#[trigger] self.node_rows()[i]).node.id < self.next_node()
        &&& forall|i: int, j: int| 0 <= i < j < self.node_rows().len() ==>
            #[trigger] self.node_rows()[i].node.id != #[trigger] self.node_rows()[j].node.id
    }

    #[verifier::type_invariant]
    closed spec fn inv(self) -> bool {
        self.wf()
    }

    /// An empty store, with no workspace root.
    pub fn new() -> (db: Db)
        ensures
            db.file_rows().len() == 0,
            db.node_rows().len() == 0,
            db.edge_rows().len() == 0,
            db.next_file() == 1,
            db.next_node() == 1,
            db.workspace_root().len() == 0,
    {
        Db {
            files: Vec::new(),
            nodes: Vec::new(),
            edges: Vec::new(),
            next_file_id: 1,
            next_node_id: 1,
            root: String::new(),
        }
    }

    /// An empty store for the workspace at `root`.
    pub fn new_in(root: &str) -> (db: Db)
        ensures
            db.file_rows().len() == 0,
            db.node_rows().len() == 0,
            db.edge_rows().len() == 0,
            db.next_file() == 1,
            db.next_node() == 1,
            db.workspace_root() == root@,
    {
        Db {
            files: Vec::new(),
            nodes: Vec::new(),
            edges: Vec::new(),
            next_file_id: 1,
            next_node_id: 1,
            root: root.to_owned(),
        }
    }

    /// Number of stored symbols.
    pub fn node_count(&self) -> (r: usize)
        ensures
            r == self.node_rows().len(),
            self.wf(),
    {
        proof { use_type_invariant(self); }
        self.nodes.len()
    }

    /// The stored symbol with this id, if any.
    pub fn lookup_node(&self, id: NodeId) -> (r: Option<Node>)
        ensures
            match r {
                Some(n) => exists|i: int| 0 <= i < self.node_rows().len()
                    && self.node_rows()[i].node == n && n.id == id,
                None => !self.has_node(id),
            },
    {
        let mut i: usize = 0;
        while i < self.nodes.len()
            invariant
                0 <= i <= self.nodes.len(),
                forall|k: int| 0 <= k < i ==> self.nodes@[k].node.id != id,
            decreases self.nodes.len() - i,
        {
            if self.nodes[i].node.id == id {
                let n = self.nodes[i].node.duplicate();
                assert(self.node_rows()[i as int].node == n);
                return Some(n);
            }
            i = i + 1;
        }
        None
    }

    /// All stored symbols named `name`, in storage order.
    pub fn named_nodes(&self, name: &str) -> (r: Vec<Node>)
        ensures
            r@ == self.node_seq().filter(|n: Node| n.name@ == name@),
            self.wf(),
    {
        proof { use_type_invariant(self); }
        let mut out: Vec<Node> = Vec::new();
        let mut i: usize = 0;
        let ghost pred = |n: Node| n.name@ == name@;
        while i < self.nodes.len()
            invariant
                0 <= i <= self.nodes.len(),
                out@ == self.node_seq().take(i as int).filter(pred),
                pred == (|n: Node| n.name@ == name@),
            decreases self.nodes.len() - i,
        {
            let ghost s = self.node_seq().take(i + 1);
            proof {
                assert(s.drop_last() =~= self.node_seq().take(i as int));
                assert(s.last() == self.nodes@[i as int].node);
                reveal_with_fuel(Seq::<_>::filter, 1);
                assert(s.filter(pred) == if pred(s.last()) { s.drop_last().filter(pred).push(s.last()) } else { s.drop_last().filter(pred) });
            }
            let eq = str_eq(self.nodes[i].node.name.as_str(), name);
            if eq {
                out.push(self.nodes[i].node.duplicate());
            }
            i = i + 1;
        }
        proof {
            assert(self.node_seq().take(self.nodes@.len() as int) =~= self.node_seq());
        }
        out
    }

    /// The paths of the stored files, in storage order.
    pub fn file_paths(&self) -> (r: Vec<String>)
        ensures
            r@.map_values(|s: String| s@) == self.file_rows().map_values(|f: FileRow| f.path@),
    {
        let mut out: Vec<String> = Vec::new();
        let mut i: usize = 0;
        while i < self.files.len()
            invariant
                0 <= i <= self.files.len(),
                out@.map_values(|s: String| s@) == self.file_rows().take(i as int).map_values(|f: FileRow| f.path@),
            decreases self.files.len() - i,
        {
            let ghost before = out@.map_values(|s: String| s@);
            let p = self.files[i].path.clone();
            out.push(p);
            proof {
                assert(out@.map_values(|s: String| s@) =~= before.push(self.files@[i as int].path@));
                assert(self.file_rows().take(i + 1).map_values(|f: FileRow| f.path@)
                    =~= self.file_rows().take(i as int).map_values(|f: FileRow| f.path@).push(self.files@[i as int].path@));
            }
            i = i + 1;
        }
        assert(self.file_rows().take(self.files@.len() as int) =~= self.file_rows());
        out
    }

    /// The stored row of the file at `path`, if any.
    pub fn file_by_path(&self, path: &str) -> (r: Option<FileRow>)
        ensures
            match r {
                Some(f) => exists|i: int| 0 <= i < self.file_rows().len()
                    && self.file_rows()[i] == f && f.path@ == path@,
                None => forall|i: int| 0 <= i < self.file_rows().len()
                    ==> (#[trigger] self.file_rows()[i]).path@ != path@,
            },
            self.wf(),
    {
        proof { use_type_invariant(self); }
        let mut i: usize = 0;
        while i < self.files.len()
            invariant
                0 <= i <= self.files.len(),
                self.wf(),
                forall|k: int| 0 <= k < i ==> (#[trigger] self.files@[k]).path@ != path@,
            decreases self.files.len() - i,
        {
            if str_eq(self.files[i].path.as_str(), path) {
                let f = self.files[i].duplicate();
                assert(self.file_rows()[i as int] == f);
                return Some(f);
            }
            i = i + 1;
        }
        None
    }

    /// The stored relations of one of `kinds` that leave (`forward`) or
    /// enter (`!forward`) node `id`, in storage order.
    pub fn select_edges(&self, id: NodeId, kinds: &[EdgeKind], forward: bool) -> (r: Vec<Edge>)
        ensures
            r@ == self.edge_seq().filter(|e: Edge| edge_selected(e, id, kinds@, forward)),
            self.wf(),
    {
        proof { use_type_invariant(self); }
        let mut out: Vec<Edge> = Vec::new();
        let mut i: usize = 0;
        let ghost pred = |e: Edge| edge_selected(e, id, kinds@, forward);
        while i < self.edges.len()
            invariant
                0 <= i <= self.edges.len(),
                out@ == self.edge_seq().take(i as int).filter(pred),
                pred == (|e: Edge| edge_selected(e, id, kinds@, forward)),
            decreases self.edges.len() - i,
        {
            let ghost s = self.edge_seq().take(i + 1);
            proof {
                assert(s.drop_last() =~= self.edge_seq().take(i as int));
                assert(s.last() == self.edges@[i as int].edge);
                reveal_with_fuel(Seq::<_>::filter, 1);
            }
            let e = &self.edges[i].edge;
            let end = if forward { e.from } else { e.to };
            if end == id && kind_in(e.kind, kinds) {
                out.push(e.duplicate());
            }
            i = i + 1;
        }
        proof {
            assert(self.edge_seq().take(self.edges@.len() as int) =~= self.edge_seq());
        }
        out
    }

    /// Stores file row `f`, keyed by its path: a row with the same path is
    /// replaced and keeps its id; otherwise the row gets a fresh id.
    /// Fails only when the id space is exhausted.
    pub fn upsert_file(&mut self, f: &FileRow) -> (r: Result<i64, Error>)
        ensures
            final(self).workspace_root() == old(self).workspace_root(),
            final(self).node_rows() == old(self).node_rows(),
            final(self).edge_rows() == old(self).edge_rows(),
            final(self).next_node() == old(self).next_node(),
            has_path(old(self).file_rows(), f.path@) ==> {
                let i = path_index(old(self).file_rows(), f.path@);
                let id = old(self).file_rows()[i].id.unwrap();
                &&& r == Ok::<i64, Error>(id)
                &&& final(self).file_rows() == old(self).file_rows().update(i, with_id(*f, id))
                &&& final(self).next_file() == old(self).next_file()
            },
            !has_path(old(self).file_rows(), f.path@) ==> match r {
                Ok(id) => {
                    &&& id == old(self).next_file()
                    &&& final(self).file_rows() == old(self).file_rows().push(with_id(*f, id))
                    &&& final(self).next_file() == id + 1
                },
                Err(_) => {
                    &&& old(self).next_file() == i64::MAX
                    &&& final(self).file_rows() == old(self).file_rows()
                    &&& final(self).next_file() == old(self).next_file()
                },
            },
    {
        proof { use_type_invariant(&*self); }
        let mut i: usize = 0;
        while i < self.files.len()
            invariant
                0 <= i <= self.files.len(),
                self.wf(),
                *self == *old(self),
                forall|k: int| 0 <= k < i ==> (#[trigger] self.files@[k]).path@ != f.path@,
            decreases self.files.len() - i,
        {
            if str_eq(self.files[i].path.as_str(), f.path.as_str()) {
                assert(self.file_rows()[i as int].id is Some);
                let id = self.files[i].id.unwrap();
                let mut row = f.duplicate();
                row.id = Some(id);
                proof {
                    let j = path_index(self.files@, f.path@);
                    assert(self.files@[i as int].path@ == f.path@);
                    if j != i {
                        if j < i {
                            assert(self.file_rows()[j].id != self.file_rows()[i as int].id);
                        } else {
                            assert(self.file_rows()[i as int].id != self.file_rows()[j].id);
                        }
                    }
                }
                let ghost old_files = self.files@;
                let mut files: Vec<FileRow> = Vec::new();
                std::mem::swap(&mut files, &mut self.files);
                files.set(i, row);
                proof {
                    assert forall|a: int, b: int| 0 <= a < b < files@.len() implies
                        #[trigger] files@[a].id != #[trigger] files@[b].id
                        && files@[a].path@ != files@[b].path@ by {
                        assert(old(self).file_rows()[a].id != old(self).file_rows()[b].id);
                    }
                }
                self.files = files;
                return Ok(id);
            }
            i = i + 1;
        }
        if self.next_file_id == i64::MAX {
            return Err(Error::Db(String::from_str("file id space exhausted")));
        }
        let id = self.next_file_id;
        let mut row = f.duplicate();
        row.id = Some(id);
        self.next_file_id = id + 1;
        let mut files: Vec<FileRow> = Vec::new();
        std::mem::swap(&mut files, &mut self.files);
        files.push(row);
        self.files = files;
        Ok(id)
    }

    /// Position of the stored file with id `id`, if any.
    fn find_file_id(&self, id: i64) -> (r: Option<usize>)
        requires
            self.wf(),
        ensures
            match r {
                Some(i) => i < self.file_rows().len() && self.file_rows()[i as int].id == Some(id)
                    && file_id_index(self.file_rows(), id) == i,
                None => !has_file_id(self.file_rows(), id),
            },
    {
        let mut i: usize = 0;
        while i < self.files.len()
            invariant
                0 <= i <= self.files.len(),
                self.wf(),
                forall|k: int| 0 <= k < i ==> (#[trigger] self.files@[k]).id != Some(id),
            decreases self.files.len() - i,
        {
            let matched = match self.files[i].id {
                Some(x) => x == id,
                None => false,
            };
            if matched {
                proof {
                    let j = file_id_index(self.file_rows(), id);
                    assert(self.file_rows()[i as int].id == Some(id));
                    if j != i {
                        if j < i {
                            assert(self.file_rows()[j].id != self.file_rows()[i as int].id);
                        } else {
                            assert(self.file_rows()[i as int].id != self.file_rows()[j].id);
                        }
                    }
                }
                return Some(i);
            }
            i = i + 1;
        }
        None
    }

    /// Stores the drafts as symbols of file `file_id`, giving them
    /// consecutive fresh ids, and returns those ids in draft order.
    /// Fails when no file has that id, or when the id space is exhausted.
    pub fn insert_nodes(&mut self, file_id: i64, drafts: &[NodeDraft]) -> (r: Result<Vec<NodeId>, Error>)
        ensures
            final(self).workspace_root() == old(self).workspace_root(),
            final(self).file_rows() == old(self).file_rows(),
            final(self).edge_rows() == old(self).edge_rows(),
            final(self).next_file() == old(self).next_file(),
            r is Ok <==> (has_file_id(old(self).file_rows(), file_id)
                && old(self).next_node() + drafts@.len() <= i64::MAX),
            match r {
                Ok(ids) => {
                    let path = old(self).file_rows()[file_id_index(old(self).file_rows(), file_id)].path;
                    &&& ids@.len() == drafts@.len()
                    &&& forall|k: int| 0 <= k < ids@.len() ==> #[trigger] ids@[k] == old(self).next_node() + k
                    &&& final(self).next_node() == old(self).next_node() + drafts@.len()
                    &&& final(self).node_rows() == old(self).node_rows() + Seq::new(
                        drafts@.len(),
                        |k: int| NodeRow {
                            node: node_of_draft(drafts@[k], (old(self).next_node() + k) as i64, path),
                            file_id,
                        },
                    )
                },
                Err(_) => {
                    &&& final(self).node_rows() == old(self).node_rows()
                    &&& final(self).next_node() == old(self).next_node()
                },
            },
    {
        proof { use_type_invariant(&*self); }
        let fi = match self.find_file_id(file_id) {
            Some(fi) => fi,
            None => { return Err(Error::Db(String::from_str("unknown file id"))); }
        };
        if (drafts.len() as u64) > ((i64::MAX - self.next_node_id) as u64) {
            return Err(Error::Db(String::from_str("node id space exhausted")));
        }
        let path = self.files[fi].path.clone();
        let base: i64 = self.next_node_id;
        let ghost old_rows = self.nodes@;
        let mut rows: Vec<NodeRow> = Vec::new();
        std::mem::swap(&mut rows, &mut self.nodes);
        let mut ids: Vec<NodeId> = Vec::new();
        let mut k: usize = 0;
        while k < drafts.len()
            invariant
                0 <= k <= drafts@.len(),
                base + drafts@.len() <= i64::MAX,
                1 <= base,
                ids@.len() == k,
                forall|j: int| 0 <= j < k ==> #[trigger] ids@[j] == base + j,
                rows@ == old_rows + Seq::new(
                    k as nat,
                    |j: int| NodeRow { node: node_of_draft(drafts@[j], (base + j) as i64, path), file_id },
                ),
                forall|i: int| 0 <= i < old_rows.len() ==> 1 <= (#[trigger] old_rows[i]).node.id < base,
                forall|i: int, j: int| 0 <= i < j < old_rows.len() ==>
                    #[trigger] old_rows[i].node.id != #[trigger] old_rows[j].node.id,
            decreases drafts@.len() - k,
        {
            let id: i64 = base_plus(base, k);
            let d = &drafts[k];
            let node = Node {
                id,
                kind: d.kind,
                name: d.name.clone(),
                qualified_name: copy_opt_string(&d.qualified_name),
                file: path.clone(),
                start_line: d.start_line,
                end_line: d.end_line,
                signature: copy_opt_string(&d.signature),
                docstring: copy_opt_string(&d.docstring),
                language: d.language.clone(),
            };
            assert(node == node_of_draft(drafts@[k as int], (base + k) as i64, path));
            rows.push(NodeRow { node, file_id });
            ids.push(id);
            proof {
                assert(rows@ =~= old_rows + Seq::new(
                    (k + 1) as nat,
                    |j: int| NodeRow { node: node_of_draft(drafts@[j], (base + j) as i64, path), file_id },
                ));
            }
            k = k + 1;
        }
        self.next_node_id = base_plus(base, drafts.len());
        proof {
            assert forall|i: int| 0 <= i < rows@.len() implies
                1 <= (#[trigger] rows@[i]).node.id < self.next_node_id by {
                if i >= old_rows.len() {
                    assert(rows@[i].node.id == base + (i - old_rows.len()));
                }
            }
            assert forall|i: int, j: int| 0 <= i < j < rows@.len() implies
                #[trigger] rows@[i].node.id != #[trigger] rows@[j].node.id by {
                if j >= old_rows.len() {
                    assert(rows@[j].node.id == base + (j - old_rows.len()));
                    if i >= old_rows.len() {
                        assert(rows@[i].node.id == base + (i - old_rows.len()));
                    } else {
                        assert(rows@[i].node.id < base);
                    }
                }
            }
        }
        self.nodes = rows;
        Ok(ids)
    }

    /// Stores the relation drafts. Fails, storing nothing, when a draft names
    /// a file id that is not stored.
    pub fn insert_edges(&mut self, drafts: &[EdgeDraft]) -> (r: Result<(), Error>)
        ensures
            final(self).workspace_root() == old(self).workspace_root(),
            final(self).file_rows() == old(self).file_rows(),
            final(self).node_rows() == old(self).node_rows(),
            final(self).next_file() == old(self).next_file(),
            final(self).next_node() == old(self).next_node(),
            r is Ok <==> edge_files_known(old(self).file_rows(), drafts@),
            r is Ok ==> final(self).edge_rows() == old(self).edge_rows() + Seq::new(
                drafts@.len(),
                |k: int| edge_row_of_draft(drafts@[k], edge_file_path(old(self).file_rows(), drafts@[k].file_id)),
            ),
            r is Err ==> final(self).edge_rows() == old(self).edge_rows(),
    {
        proof { use_type_invariant(&*self); }
        let mut paths: Vec<Option<String>> = Vec::new();
        let mut k: usize = 0;
        while k < drafts.len()
            invariant
                0 <= k <= drafts@.len(),
                self.wf(),
                *self == *old(self),
                paths@.len() == k,
                edge_files_known(self.file_rows(), drafts@.take(k as int)),
                forall|j: int| 0 <= j < k ==> #[trigger] paths@[j] == edge_file_path(self.file_rows(), drafts@[j].file_id),
            decreases drafts@.len() - k,
        {
            match drafts[k].file_id {
                Some(f) => match self.find_file_id(f) {
                    Some(fi) => { paths.push(Some(self.files[fi].path.clone())); },
                    None => {
                        proof {
                            assert(!edge_files_known(self.file_rows(), drafts@)) by {
                                assert(drafts@[k as int].file_id == Some(f));
                            }
                        }
                        return Err(Error::Db(String::from_str("unknown file id")));
                    },
                },
                None => { paths.push(None); },
            }
            proof {
                assert forall|j: int| 0 <= j < k + 1 implies match (#[trigger] drafts@.take(k + 1)[j]).file_id {
                    Some(f) => has_file_id(self.file_rows(), f),
                    None => true,
                } by {
                    if j < k {
                        assert(drafts@.take(k + 1)[j] == drafts@.take(k as int)[j]);
                    } else {
                        match drafts@[k as int].file_id {
                            Some(f) => {
                                let fi = file_id_index(self.file_rows(), f);
                                assert(self.file_rows()[fi].id == Some(f));
                            },
                            None => {},
                        }
                    }
                }
            }
            k = k + 1;
        }
        proof {
            assert(drafts@.take(drafts@.len() as int) =~= drafts@);
        }
        let ghost old_rows = self.edges@;
        let mut rows: Vec<EdgeRow> = Vec::new();
        std::mem::swap(&mut rows, &mut self.edges);
        let mut k: usize = 0;
        while k < drafts.len()
            invariant
                0 <= k <= drafts@.len(),
                paths@.len() == drafts@.len(),
                forall|j: int| 0 <= j < drafts@.len() ==> #[trigger] paths@[j] == edge_file_path(old(self).file_rows(), drafts@[j].file_id),
                rows@ == old_rows + Seq::new(
                    k as nat,
                    |j: int| edge_row_of_draft(drafts@[j], edge_file_path(old(self).file_rows(), drafts@[j].file_id)),
                ),
            decreases drafts@.len() - k,
        {
            let d = &drafts[k];
            let row = EdgeRow {
                edge: Edge { from: d.from_id, to: d.to_id, kind: d.kind, file: copy_opt_string(&paths[k]), line: d.line },
                file_id: d.file_id,
                source: copy_opt_string(&d.source),
            };
            assert(row == edge_row_of_draft(drafts@[k as int], edge_file_path(old(self).file_rows(), drafts@[k as int].file_id)));
            rows.push(row);
            proof {
                assert(rows@ =~= old_rows + Seq::new(
                    (k + 1) as nat,
                    |j: int| edge_row_of_draft(drafts@[j], edge_file_path(old(self).file_rows(), drafts@[j].file_id)),
                ));
            }
            k = k + 1;
        }
        self.edges = rows;
        Ok(())
    }

    /// Removes file `fid`, its symbols, and every relation that belongs to
    /// the file or touches one of its symbols.
    pub fn delete_file_cascade(&mut self, fid: i64) -> (r: Result<(), Error>)
        ensures
            final(self).workspace_root() == old(self).workspace_root(),
            r is Ok,
            final(self).next_file() == old(self).next_file(),
            final(self).next_node() == old(self).next_node(),
            final(self).file_rows() == old(self).file_rows().filter(|f: FileRow| f.id != Some(fid)),
            final(self).node_rows() == old(self).node_rows().filter(|n: NodeRow| n.file_id != fid),
            final(self).edge_rows() == old(self).edge_rows().filter(
                |e: EdgeRow| edge_survives(old(self).node_rows(), fid, e),
            ),
    {
        proof { use_type_invariant(&*self); }
        let ghost old_files = self.files@;
        let ghost old_nodes = self.nodes@;
        let ghost old_edges = self.edges@;
        let ghost next_file = self.next_file_id;
        let ghost next_node = self.next_node_id;

        // Ids of the symbols that go.
        let mut gone: Vec<NodeId> = Vec::new();
        let mut i: usize = 0;
        while i < self.nodes.len()
            invariant
                0 <= i <= self.nodes@.len(),
                *self == *old(self),
                forall|x: NodeId| gone@.contains(x) <==> exists|j: int| 0 <= j < i
                    && (#[trigger] self.nodes@[j]).file_id == fid && self.nodes@[j].node.id == x,
            decreases self.nodes.len() - i,
        {
            let ghost g0 = gone@;
            if self.nodes[i].file_id == fid {
                gone.push(self.nodes[i].node.id);
                proof {
                    assert forall|x: NodeId| gone@.contains(x) <==> (g0.contains(x) || x == self.nodes@[i as int].node.id) by {
                        if g0.contains(x) {
                            let m = choose|m: int| 0 <= m < g0.len() && g0[m] == x;
                            assert(gone@[m] == x);
                        }
                        if x == self.nodes@[i as int].node.id {
                            assert(gone@[gone@.len() - 1] == x);
                        }
                        if gone@.contains(x) {
                            let m = choose|m: int| 0 <= m < gone@.len() && gone@[m] == x;
                            if m < g0.len() {
                                assert(g0[m] == x);
                            }
                        }
                    }
                    assert(self.nodes@[i as int].file_id == fid);
                }
            }
            proof {
                assert forall|x: NodeId| gone@.contains(x) <==> exists|j: int| 0 <= j < i + 1
                    && (#[trigger] self.nodes@[j]).file_id == fid && self.nodes@[j].node.id == x by {
                    if exists|j: int| 0 <= j < i + 1 && (#[trigger] self.nodes@[j]).file_id == fid && self.nodes@[j].node.id == x {
                        let j = choose|j: int| 0 <= j < i + 1 && (#[trigger] self.nodes@[j]).file_id == fid && self.nodes@[j].node.id == x;
                        if j < i {
                            assert(g0.contains(x));
                        } else {
                            assert(gone@ =~= g0.push(self.nodes@[i as int].node.id));
                            assert(gone@[gone@.len() - 1] == x);
                        }
                    }
                    if gone@.contains(x) && !g0.contains(x) {
                        assert(x == self.nodes@[i as int].node.id);
                        assert(self.nodes@[i as int].file_id == fid);
                    }
                }
            }
            i = i + 1;
        }

        // Files.
        let mut files: Vec<FileRow> = Vec::new();
        std::mem::swap(&mut files, &mut self.files);
        let mut kept_files: Vec<FileRow> = Vec::new();
        let ghost fpred = |f: FileRow| f.id != Some(fid);
        let mut i: usize = 0;
        while i < files.len()
            invariant
                0 <= i <= files@.len(),
                files@ == old_files,
                fpred == (|f: FileRow| f.id != Some(fid)),
                kept_files@ == old_files.take(i as int).filter(fpred),
                forall|k: int| 0 <= k < kept_files@.len() ==> exists|j: int| 0 <= j < i && #[trigger] kept_files@[k] == old_files[j],
                forall|a: int, b: int| 0 <= a < b < old_files.len() ==>
                    #[trigger] old_files[a].id != #[trigger] old_files[b].id && old_files[a].path@ != old_files[b].path@,
                forall|a: int, b: int| 0 <= a < b < kept_files@.len() ==>
                    #[trigger] kept_files@[a].id != #[trigger] kept_files@[b].id && kept_files@[a].path@ != kept_files@[b].path@,
            decreases files@.len() - i,
        {
            let ghost t = old_files.take(i + 1);
            proof {
                assert(t.drop_last() =~= old_files.take(i as int));
                reveal_with_fuel(Seq::<_>::filter, 1);
            }
            let keep = match files[i].id {
                Some(x) => x != fid,
                None => true,
            };
            if keep {
                proof {
                    assert forall|a: int| 0 <= a < kept_files@.len() implies
                        kept_files@[a].id != old_files[i as int].id && kept_files@[a].path@ != old_files[i as int].path@ by {
                        let j = choose|j: int| 0 <= j < i && #[trigger] kept_files@[a] == old_files[j];
                        assert(old_files[j].id != old_files[i as int].id);
                    }
                }
                kept_files.push(files[i].duplicate());
            }
            i = i + 1;
        }
        proof {
            assert(old_files.take(old_files.len() as int) =~= old_files);
        }
        self.files = kept_files;

        // Symbols.
        let mut nodes: Vec<NodeRow> = Vec::new();
        std::mem::swap(&mut nodes, &mut self.nodes);
        let mut kept_nodes: Vec<NodeRow> = Vec::new();
        let ghost npred = |n: NodeRow| n.file_id != fid;
        let mut i: usize = 0;
        while i < nodes.len()
            invariant
                0 <= i <= nodes@.len(),
                nodes@ == old_nodes,
                npred == (|n: NodeRow| n.file_id != fid),
                kept_nodes@ == old_nodes.take(i as int).filter(npred),
                forall|k: int| 0 <= k < kept_nodes@.len() ==> exists|j: int| 0 <= j < i && #[trigger] kept_nodes@[k] == old_nodes[j],
                forall|a: int, b: int| 0 <= a < b < old_nodes.len() ==>
                    #[trigger] old_nodes[a].node.id != #[trigger] old_nodes[b].node.id,
                forall|a: int| 0 <= a < old_nodes.len() ==> 1 <= (#[trigger] old_nodes[a]).node.id < next_node,
                forall|a: int, b: int| 0 <= a < b < kept_nodes@.len() ==>
                    #[trigger] kept_nodes@[a].node.id != #[trigger] kept_nodes@[b].node.id,
            decreases nodes@.len() - i,
        {
            let ghost t = old_nodes.take(i + 1);
            proof {
                assert(t.drop_last() =~= old_nodes.take(i as int));
                reveal_with_fuel(Seq::<_>::filter, 1);
            }
            if nodes[i].file_id != fid {
                proof {
                    assert forall|a: int| 0 <= a < kept_nodes@.len() implies
                        kept_nodes@[a].node.id != old_nodes[i as int].node.id by {
                        let j = choose|j: int| 0 <= j < i && #[trigger] kept_nodes@[a] == old_nodes[j];
                        assert(old_nodes[j].node.id != old_nodes[i as int].node.id);
                    }
                }
                let r = NodeRow { node: nodes[i].node.duplicate(), file_id: nodes[i].file_id };
                kept_nodes.push(r);
            }
            i = i + 1;
        }
        proof {
            assert(old_nodes.take(old_nodes.len() as int) =~= old_nodes);
            assert forall|a: int| 0 <= a < kept_nodes@.len() implies 1 <= (#[trigger] kept_nodes@[a]).node.id < next_node by {
                let j = choose|j: int| 0 <= j < nodes@.len() && #[trigger] kept_nodes@[a] == old_nodes[j];
                assert(kept_nodes@[a] == old_nodes[j]);
            }
        }
        self.nodes = kept_nodes;

        // Relations.
        let mut edges: Vec<EdgeRow> = Vec::new();
        std::mem::swap(&mut edges, &mut self.edges);
        let mut kept_edges: Vec<EdgeRow> = Vec::new();
        let ghost epred = |e: EdgeRow| edge_survives(old_nodes, fid, e);
        let mut i: usize = 0;
        while i < edges.len()
            invariant
                0 <= i <= edges@.len(),
                edges@ == old_edges,
                epred == (|e: EdgeRow| edge_survives(old_nodes, fid, e)),
                kept_edges@ == old_edges.take(i as int).filter(epred),
                forall|x: NodeId| gone@.contains(x) <==> node_of_file(old_nodes, fid, x),
            decreases edges@.len() - i,
        {
            let ghost t = old_edges.take(i + 1);
            proof {
                assert(t.drop_last() =~= old_edges.take(i as int));
                reveal_with_fuel(Seq::<_>::filter, 1);
            }
            let own = match edges[i].file_id {
                Some(x) => x == fid,
                None => false,
            };
            if !own && !id_in(edges[i].edge.from, &gone) && !id_in(edges[i].edge.to, &gone) {
                let e = &edges[i];
                let r = EdgeRow { edge: e.edge.duplicate(), file_id: e.file_id, source: copy_opt_string(&e.source) };
                kept_edges.push(r);
            }
            i = i + 1;
        }
        proof {
            assert(old_edges.take(old_edges.len() as int) =~= old_edges);
        }
        self.edges = kept_edges;
        Ok(())
    }

    /// Records new modification time and size for the file at `path`;
    /// nothing changes when no file has that path.
    pub fn update_file_metadata(&mut self, path: &str, mtime: i64, size: u64) -> (r: Result<(), Error>)
        ensures
            final(self).workspace_root() == old(self).workspace_root(),
            r is Ok,
            final(self).node_rows() == old(self).node_rows(),
            final(self).edge_rows() == old(self).edge_rows(),
            final(self).next_file() == old(self).next_file(),
            final(self).next_node() == old(self).next_node(),
            has_path(old(self).file_rows(), path@) ==> {
                let i = path_index(old(self).file_rows(), path@);
                let f = old(self).file_rows()[i];
                final(self).file_rows() == old(self).file_rows().update(i, FileRow {
                    id: f.id, path: f.path, language: f.language, sha256: f.sha256,
                    size, mtime, indexed_at: f.indexed_at,
                })
            },
            !has_path(old(self).file_rows(), path@) ==> final(self).file_rows() == old(self).file_rows(),
    {
        proof { use_type_invariant(&*self); }
        let mut i: usize = 0;
        while i < self.files.len()
            invariant
                0 <= i <= self.files.len(),
                self.wf(),
                *self == *old(self),
                forall|k: int| 0 <= k < i ==> (#[trigger] self.files@[k]).path@ != path@,
            decreases self.files.len() - i,
        {
            if str_eq(self.files[i].path.as_str(), path) {
                let mut row = self.files[i].duplicate();
                row.mtime = mtime;
                row.size = size;
                proof {
                    let j = path_index(self.files@, path@);
                    if j != i {
                        if j < i {
                            assert(self.file_rows()[j].id != self.file_rows()[i as int].id);
                        } else {
                            assert(self.file_rows()[i as int].id != self.file_rows()[j].id);
                        }
                    }
                }
                let mut files: Vec<FileRow> = Vec::new();
                std::mem::swap(&mut files, &mut self.files);
                files.set(i, row);
                proof {
                    assert forall|a: int, b: int| 0 <= a < b < files@.len() implies
                        #[trigger] files@[a].id != #[trigger] files@[b].id
                        && files@[a].path@ != files@[b].path@ by {
                        assert(old(self).file_rows()[a].id != old(self).file_rows()[b].id);
                    }
                }
                self.files = files;
                return Ok(());
            }
            i = i + 1;
        }
        Ok(())
    }

    /// Removes every file, symbol and relation. Fresh ids keep counting up.
    pub fn purge(&mut self) -> (r: Result<(), Error>)
        ensures
            final(self).workspace_root() == old(self).workspace_root(),
            r is Ok,
            final(self).file_rows().len() == 0,
            final(self).node_rows().len() == 0,
            final(self).edge_rows().len() == 0,
            final(self).next_file() == old(self).next_file(),
            final(self).next_node() == old(self).next_node(),
    {
        proof { use_type_invariant(&*self); }
        self.files = Vec::new();
        self.nodes = Vec::new();
        self.edges = Vec::new();
        Ok(())
    }

    /// Counts of the stored files, symbols and relations.
    pub fn stats(&self) -> (r: Result<DbStats, Error>)
        ensures
            r == Ok::<DbStats, Error>(DbStats {
                files: self.file_rows().len() as u64,
                nodes: self.node_rows().len() as u64,
                edges: self.edge_rows().len() as u64,
                size_bytes: 0,
                schema_version: SCHEMA_VERSION,
            }),
    {
        Ok(DbStats {
            files: self.files.len() as u64,
            nodes: self.nodes.len() as u64,
            edges: self.edges.len() as u64,
            size_bytes: 0,
            schema_version: SCHEMA_VERSION,
        })
    }

    /// The version of the storage layout.
    pub fn schema_version(&self) -> (r: Result<u32, Error>)
        ensures
            r == Ok::<u32, Error>(SCHEMA_VERSION),
    {
        Ok(SCHEMA_VERSION)
    }

    /// The first `limit` stored symbols, in storage order, whose name,
    /// qualified name, signature or docstring contains `q`, ignoring ASCII
    /// case. An empty query matches nothing.
    pub fn search_nodes(&self, q: &str, limit: u32) -> (r: Result<Vec<Node>, Error>)
        ensures
            r matches Ok(v) && v@ == at_most(self.node_seq().filter(|n: Node| matches_query(n, q@)), limit as int),
    {
        let qc = chars_of(q);
        let mut out: Vec<Node> = Vec::new();
        let ghost pred = |n: Node| matches_query(n, q@);
        let mut i: usize = 0;
        while i < self.nodes.len()
            invariant
                0 <= i <= self.nodes.len(),
                qc@ == q@,
                pred == (|n: Node| matches_query(n, q@)),
                out@ == at_most(self.node_seq().take(i as int).filter(pred), limit as int),
            decreases self.nodes.len() - i,
        {
            let ghost t = self.node_seq().take(i + 1);
            let ghost f0 = self.node_seq().take(i as int).filter(pred);
            proof {
                assert(t.drop_last() =~= self.node_seq().take(i as int));
                assert(t.last() == self.nodes@[i as int].node);
                reveal_with_fuel(Seq::<_>::filter, 1);
            }
            let n = &self.nodes[i].node;
            let hit = node_matches(n, &qc);
            if hit && (out.len() as u64) < (limit as u64) {
                out.push(n.duplicate());
            }
            proof {
                if hit && f0.len() >= limit {
                    assert(f0.push(t.last()).take(limit as int) =~= f0.take(limit as int));
                }
            }
            i = i + 1;
        }
        proof {
            assert(self.node_seq().take(self.nodes@.len() as int) =~= self.node_seq());
        }
        Ok(out)
    }

    /// The stored files at or under `prefix`, in storage order. A relative
    /// prefix is read against the workspace root; `\` and `/` separate
    /// components alike, and leading `./` and trailing `/` are ignored. The
    /// empty prefix gives every file.
    pub fn files_under(&self, prefix: &str) -> (r: Result<Vec<FileRow>, Error>)
        ensures
            r matches Ok(v) && v@ == self.file_rows().filter(
                |f: FileRow| path_under(f.path@, prefix_target(self.workspace_root(), prefix@)),
            ),
    {
        let target = prefix_target_exec(self.root.as_str(), prefix);
        let ghost pred = |f: FileRow| path_under(f.path@, target@);
        let mut out: Vec<FileRow> = Vec::new();
        let mut i: usize = 0;
        while i < self.files.len()
            invariant
                0 <= i <= self.files.len(),
                pred == (|f: FileRow| path_under(f.path@, target@)),
                out@ == self.file_rows().take(i as int).filter(pred),
            decreases self.files.len() - i,
        {
            let ghost t = self.file_rows().take(i + 1);
            proof {
                assert(t.drop_last() =~= self.file_rows().take(i as int));
                assert(t.last() == self.files@[i as int]);
                reveal_with_fuel(Seq::<_>::filter, 1);
            }
            if path_under_exec(self.files[i].path.as_str(), &target) {
                out.push(self.files[i].duplicate());
            }
            i = i + 1;
        }
        proof {
            assert(self.file_rows().take(self.files@.len() as int) =~= self.file_rows());
        }
        Ok(out)
    }

    /// The first `limit` stored symbols, in storage order, whose file is at
    /// or under `prefix` (read as for [`Db::files_under`]).
    pub fn nodes_under_prefix(&self, prefix: &str, limit: u32) -> (r: Result<Vec<Node>, Error>)
        ensures
            r matches Ok(v) && v@ == at_most(
                self.node_seq().filter(|n: Node| path_under(n.file@, prefix_target(self.workspace_root(), prefix@))),
                limit as int,
            ),
    {
        let target = prefix_target_exec(self.root.as_str(), prefix);
        let ghost pred = |n: Node| path_under(n.file@, target@);
        let mut out: Vec<Node> = Vec::new();
        let mut i: usize = 0;
        while i < self.nodes.len()
            invariant
                0 <= i <= self.nodes.len(),
                pred == (|n: Node| path_under(n.file@, target@)),
                out@ == at_most(self.node_seq().take(i as int).filter(pred), limit as int),
            decreases self.nodes.len() - i,
        {
            let ghost t = self.node_seq().take(i + 1);
            let ghost f0 = self.node_seq().take(i as int).filter(pred);
            proof {
                assert(t.drop_last() =~= self.node_seq().take(i as int));
                assert(t.last() == self.nodes@[i as int].node);
                reveal_with_fuel(Seq::<_>::filter, 1);
            }
            let n = &self.nodes[i].node;
            let hit = path_under_exec(n.file.as_str(), &target);
            if hit && (out.len() as u64) < (limit as u64) {
                out.push(n.duplicate());
            }
            proof {
                if hit && f0.len() >= limit {
                    assert(f0.push(t.last()).take(limit as int) =~= f0.take(limit as int));
                }
            }
            i = i + 1;
        }
        proof {
            assert(self.node_seq().take(self.nodes@.len() as int) =~= self.node_seq());
        }
        Ok(out)
    }

    /// The first `limit` stored symbols, in storage order, of the files with
    /// the given ids.
    pub fn nodes_by_file_ids(&self, file_ids: &[i64], limit: u32) -> (r: Result<Vec<Node>, Error>)
        ensures
            r matches Ok(v) && v@ == at_most(
                self.node_rows().filter(|x: NodeRow| file_ids@.contains(x.file_id)).map_values(|x: NodeRow| x.node),
                limit as int,
            ),
    {
        let ghost pred = |x: NodeRow| file_ids@.contains(x.file_id);
        let mut out: Vec<Node> = Vec::new();
        let mut i: usize = 0;
        while i < self.nodes.len()
            invariant
                0 <= i <= self.nodes.len(),
                pred == (|x: NodeRow| file_ids@.contains(x.file_id)),
                out@ == at_most(
                    self.node_rows().take(i as int).filter(pred).map_values(|x: NodeRow| x.node),
                    limit as int,
                ),
            decreases self.nodes.len() - i,
        {
            let ghost t = self.node_rows().take(i + 1);
            let ghost f0 = self.node_rows().take(i as int).filter(pred).map_values(|x: NodeRow| x.node);
            proof {
                assert(t.drop_last() =~= self.node_rows().take(i as int));
                assert(t.last() == self.nodes@[i as int]);
                reveal_with_fuel(Seq::<_>::filter, 1);
            }
            let hit = slice_has_id(self.nodes[i].file_id, file_ids);
            proof {
                let g = t.filter(pred).map_values(|x: NodeRow| x.node);
                if hit {
                    assert(g =~= f0.push(self.nodes@[i as int].node));
                } else {
                    assert(g =~= f0);
                }
            }
            if hit && (out.len() as u64) < (limit as u64) {
                out.push(self.nodes[i].node.duplicate());
            }
            proof {
                if hit && f0.len() >= limit {
                    assert(f0.push(self.nodes@[i as int].node).take(limit as int) =~= f0.take(limit as int));
                }
            }
            i = i + 1;
        }
        proof {
            assert(self.node_rows().take(self.nodes@.len() as int) =~= self.node_rows());
        }
        Ok(out)
    }

    /// The first `limit` stored relations, in storage order, of one of
    /// `kinds` whose two ends are both among `node_ids`.
    pub fn edges_between(&self, node_ids: &[NodeId], kinds: &[EdgeKind], limit: u32) -> (r: Result<Vec<Edge>, Error>)
        ensures
            r matches Ok(v) && v@ == at_most(
                self.edge_seq().filter(
                    |e: Edge| node_ids@.contains(e.from) && node_ids@.contains(e.to) && kinds@.contains(e.kind),
                ),
                limit as int,
            ),
    {
        let ghost pred = |e: Edge| node_ids@.contains(e.from) && node_ids@.contains(e.to) && kinds@.contains(e.kind);
        let mut out: Vec<Edge> = Vec::new();
        let mut i: usize = 0;
        while i < self.edges.len()
            invariant
                0 <= i <= self.edges.len(),
                pred == (|e: Edge| node_ids@.contains(e.from) && node_ids@.contains(e.to) && kinds@.contains(e.kind)),
                out@ == at_most(self.edge_seq().take(i as int).filter(pred), limit as int),
            decreases self.edges.len() - i,
        {
            let ghost t = self.edge_seq().take(i + 1);
            let ghost f0 = self.edge_seq().take(i as int).filter(pred);
            proof {
                assert(t.drop_last() =~= self.edge_seq().take(i as int));
                assert(t.last() == self.edges@[i as int].edge);
                reveal_with_fuel(Seq::<_>::filter, 1);
            }
            let e = &self.edges[i].edge;
            let hit = slice_has_id(e.from, node_ids) && slice_has_id(e.to, node_ids) && kind_in(e.kind, kinds);
            if hit && (out.len() as u64) < (limit as u64) {
                out.push(e.duplicate());
            }
            proof {
                if hit && f0.len() >= limit {
                    assert(f0.push(t.last()).take(limit as int) =~= f0.take(limit as int));
                }
            }
            i = i + 1;
        }
        proof {
            assert(self.edge_seq().take(self.edges@.len() as int) =~= self.edge_seq());
        }
        Ok(out)
    }

    /// Relations of the given kinds that leave node `id`.
    pub fn edges_from(&self, id: NodeId, kinds: &[EdgeKind]) -> (r: Vec<Edge>)
        ensures
            r@ == self.edge_seq().filter(|e: Edge| edge_selected(e, id, kinds@, true)),
            self.wf(),
    {
        self.select_edges(id, kinds, true)
    }

    /// Relations of the given kinds that enter node `id`.
    pub fn edges_to(&self, id: NodeId, kinds: &[EdgeKind]) -> (r: Vec<Edge>)
        ensures
            r@ == self.edge_seq().filter(|e: Edge| edge_selected(e, id, kinds@, false)),
            self.wf(),
    {
        self.select_edges(id, kinds, false)
    }

    /// The `calls` relations that enter node `id`.
    pub fn callers_of(&self, id: NodeId) -> (r: Result<Vec<Edge>, Error>)
        ensures
            r matches Ok(v) && v@ == self.edge_seq().filter(|e: Edge| edge_selected(e, id, seq![EdgeKind::Calls], false)),
    {
        let kinds = [EdgeKind::Calls];
        let r = self.select_edges(id, &kinds, false);
        assert(kinds@ =~= seq![EdgeKind::Calls]);
        Ok(r)
    }

    /// The `calls` relations that leave node `id`.
    pub fn callees_of(&self, id: NodeId) -> (r: Result<Vec<Edge>, Error>)
        ensures
            r matches Ok(v) && v@ == self.edge_seq().filter(|e: Edge| edge_selected(e, id, seq![EdgeKind::Calls], true)),
    {
        let kinds = [EdgeKind::Calls];
        let r = self.select_edges(id, &kinds, true);
        assert(kinds@ =~= seq![EdgeKind::Calls]);
        Ok(r)
    }

    /// The stored symbol with this id, if any.
    pub fn node_by_id(&self, id: NodeId) -> (r: Result<Option<Node>, Error>)
        ensures
            r matches Ok(o) && match o {
                Some(n) => exists|i: int| 0 <= i < self.node_rows().len()
                    && self.node_rows()[i].node == n && n.id == id,
                None => !self.has_node(id),
            },
    {
        Ok(self.lookup_node(id))
    }

    /// All stored symbols named `name`, in storage order.
    pub fn nodes_by_name(&self, name: &str) -> (r: Result<Vec<Node>, Error>)
        ensures
            r matches Ok(v) && v@ == self.node_seq().filter(|n: Node| n.name@ == name@),
    {
        Ok(self.named_nodes(name))
    }
}


/// `base + k`, for a sum known to fit.
fn base_plus(base: i64, k: usize) -> (r: i64)
    requires
        0 <= base,
        base + k <= i64::MAX,
    ensures
        r == base + k,
{
    base + k as i64
}



/// The first `limit` elements of `s` (all of them when there are fewer).
pub open spec fn at_most<A>(s: Seq<A>, limit: int) -> Seq<A> {
    if s.len() <= limit { s } else { s.take(limit) }
}

/// Whether `n` matches the query characters `q`.
fn node_matches(n: &Node, q: &Vec<char>) -> (r: bool)
    ensures
        r == matches_query(*n, q@),
{
    if q.len() == 0 {
        return false;
    }
    if contains_chars(&chars_of(n.name.as_str()), q, true) {
        return true;
    }
    if let Some(s) = &n.qualified_name {
        if contains_chars(&chars_of(s.as_str()), q, true) {
            return true;
        }
    }
    if let Some(s) = &n.signature {
        if contains_chars(&chars_of(s.as_str()), q, true) {
            return true;
        }
    }
    if let Some(s) = &n.docstring {
        if contains_chars(&chars_of(s.as_str()), q, true) {
            return true;
        }
    }
    false
}

/// Whether `x` is one of `ids`.
pub fn id_in(x: i64, ids: &Vec<i64>) -> (r: bool)
    ensures
        r == ids@.contains(x),
{
    let mut i: usize = 0;
    while i < ids.len()
        invariant
            0 <= i <= ids.len(),
            forall|j: int| 0 <= j < i ==> ids@[j] != x,
        decreases ids.len() - i,
    {
        if ids[i] == x {
            assert(ids@[i as int] == x);
            return true;
        }
        i = i + 1;
    }
    false
}

/// Whether `k` is one of `kinds`.
pub fn kind_in(k: EdgeKind, kinds: &[EdgeKind]) -> (r: bool)
    ensures
        r == kinds@.contains(k),
{
    let mut i: usize = 0;
    while i < kinds.len()
        invariant
            0 <= i <= kinds.len(),
            forall|j: int| 0 <= j < i ==> kinds@[j] != k,
        decreases kinds.len() - i,
    {
        if kinds[i] == k {
            assert(kinds@[i as int] == k);
            return true;
        }
        i = i + 1;
    }
    false
}

/// Whether `x` is one of `ids`.
fn slice_has_id(x: i64, ids: &[i64]) -> (r: bool)
    ensures
        r == ids@.contains(x),
{
    let mut i: usize = 0;
    while i < ids.len()
        invariant
            0 <= i <= ids.len(),
            forall|j: int| 0 <= j < i ==> ids@[j] != x,
        decreases ids.len() - i,
    {
        if ids[i] == x {
            assert(ids@[i as int] == x);
            return true;
        }
        i = i + 1;
    }
    false
}

} // verus!
