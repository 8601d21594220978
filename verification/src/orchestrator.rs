//! Indexing: deciding which files to parse again, and storing what the
//! extractors found, with call resolution at the end.

use vstd::prelude::*;
use vstd::utf8::valid_utf8;
use crate::db::{
    Db, EdgeRow, NodeRow, edge_file_path, edge_row_of_draft, edge_survives, file_id_index,
    has_file_id, has_path, node_of_draft, path_index, with_id,
};
use crate::error::Error;
use crate::kinds::EdgeKind;
use crate::model::{EdgeDraft, FileRow, Node, NodeDraft, NodeId};
use crate::resolve::{PendingCallRow, plan, resolved};
use crate::text::{push_char, str_eq};
use crate::walker::utf8_text;
use sha2::Digest;

verus! {

/// A relation found by an extractor, between two of its symbols given by
/// their positions in the extraction result.
#[derive(Debug)]
pub struct LocalEdge {
    pub from_idx: usize,
    pub to_idx: usize,
    pub kind: EdgeKind,
    pub line: Option<u32>,
}

/// A call found by an extractor: the calling symbol's position and the
/// called name.
#[derive(Debug)]
pub struct PendingCall {
    pub from_idx: usize,
    pub target_name: String,
    pub line: u32,
}

/// An import found by an extractor: the declaration it stands in, by its
/// position in the extraction result (`None` at the top of the file).
#[derive(Debug)]
pub struct RawImport {
    pub from_idx: Option<usize>,
    pub module: String,
    pub line: u32,
}

/// What an extractor found in one file.
#[derive(Debug)]
pub struct ExtractResult {
    pub nodes: Vec<NodeDraft>,
    pub edges: Vec<LocalEdge>,
    pub pending_calls: Vec<PendingCall>,
    pub imports: Vec<RawImport>,
}

/// A parsed file: its row and what was extracted from it.
#[derive(Debug)]
pub struct Parsed {
    pub row: FileRow,
    pub result: ExtractResult,
}

/// Counts of an indexing pass.
#[derive(Debug, Clone, Copy, PartialEq, Eq, Structural)]
pub struct ExtractStats {
    pub files: u64,
    pub nodes: u64,
    pub edges: u64,
    pub skipped: u64,
    pub resolved_calls: u64,
}

impl Default for ExtractStats {
    fn default() -> (r: Self)
        ensures
            r == (ExtractStats { files: 0, nodes: 0, edges: 0, skipped: 0, resolved_calls: 0 }),
    {
        ExtractStats { files: 0, nodes: 0, edges: 0, skipped: 0, resolved_calls: 0 }
    }
}

/// Files larger than this are not parsed.
pub const MAX_SOURCE_BYTES: usize = 4194304;

/// The hexadecimal digit of `d < 16`, in lower case.
pub open spec fn hex_digit(d: u8) -> char {
    if d < 10 {
        ((d as u32) + 48) as char
    } else {
        ((d as u32) + 87) as char
    }
}

/// The lower-case hexadecimal text of the bytes, two digits per byte.
pub open spec fn hex_lower(b: Seq<u8>) -> Seq<char>
    decreases b.len(),
{
    if b.len() == 0 {
        Seq::empty()
    } else {
        hex_lower(b.drop_last()) + seq![hex_digit(b.last() / 16), hex_digit(b.last() % 16)]
    }
}

/// The SHA-256 digest of the bytes, as `sha2::Sha256` computes it.
pub uninterp spec fn sha256_of(bytes: Seq<u8>) -> Seq<u8>;

/// `sha2::Sha256::digest`: the 32-byte SHA-256 digest of the bytes.
#[verifier::external_body]
fn sha256_digest(bytes: &[u8]) -> (r: Vec<u8>)
    ensures
        r@ == sha256_of(bytes@),
        r@.len() == 32,
{
    sha2::Sha256::digest(bytes).to_vec()
}

/// The lower-case hexadecimal digit of `d < 16`.
fn hex_digit_exec(d: u8) -> (r: char)
    requires
        d < 16,
    ensures
        r == hex_digit(d),
{
    if d < 10 {
        (d + 48) as char
    } else {
        (d + 87) as char
    }
}

/// The bytes as lower-case hexadecimal text, two digits per byte, high
/// digit first (as `hex::encode` writes them).
fn hex_encode(bytes: &[u8]) -> (r: String)
    ensures
        r@ == hex_lower(bytes@),
{
    let mut out = String::new();
    let mut i: usize = 0;
    while i < bytes.len()
        invariant
            0 <= i <= bytes@.len(),
            out@ == hex_lower(bytes@.take(i as int)),
        decreases bytes@.len() - i,
    {
        let b = bytes[i];
        push_char(&mut out, hex_digit_exec(b / 16));
        push_char(&mut out, hex_digit_exec(b % 16));
        proof {
            assert(bytes@.take(i + 1).drop_last() =~= bytes@.take(i as int));
        }
        i = i + 1;
    }
    assert(bytes@.take(bytes@.len() as int) =~= bytes@);
    out
}

/// The content hash stored for a file: the lower-case hexadecimal SHA-256.
pub fn content_sha256(bytes: &[u8]) -> (r: String)
    ensures
        r@ == hex_lower(sha256_of(bytes@)),
        r@.len() == 64,
{
    let d = sha256_digest(bytes);
    proof {
        lemma_hex_len(d@);
    }
    hex_encode(d.as_slice())
}

proof fn lemma_hex_len(b: Seq<u8>)
    ensures
        hex_lower(b).len() == 2 * b.len(),
    decreases b.len(),
{
    if b.len() > 0 {
        lemma_hex_len(b.drop_last());
    }
}

/// The stored row of the file at `p`, where there is one.
pub open spec fn stored(db: Db, p: Seq<char>) -> Option<FileRow> {
    if has_path(db.file_rows(), p) {
        Some(db.file_rows()[path_index(db.file_rows(), p)])
    } else {
        None
    }
}

/// Whether a file's stored row has this modification time and size, so that
/// it need not be read again.
pub fn metadata_unchanged(db: &Db, path: &str, mtime: i64, size: u64) -> (r: bool)
    ensures
        r == (stored(*db, path@) matches Some(f) && f.mtime == mtime && f.size == size),
{
    match db.file_by_path(path) {
        Some(f) => {
            proof {
                lemma_stored(*db, path@, f);
            }
            f.mtime == mtime && f.size == size
        },
        None => false,
    }
}

proof fn lemma_stored(db: Db, p: Seq<char>, f: FileRow)
    requires
        db.wf(),
        exists|i: int| 0 <= i < db.file_rows().len() && db.file_rows()[i] == f && f.path@ == p,
    ensures
        stored(db, p) == Some(f),
{
    let i = choose|i: int| 0 <= i < db.file_rows().len() && db.file_rows()[i] == f && f.path@ == p;
    let j = path_index(db.file_rows(), p);
    assert(has_path(db.file_rows(), p));
    if i != j {
        if i < j {
            assert(db.file_rows()[i].path@ != db.file_rows()[j].path@);
        } else {
            assert(db.file_rows()[j].path@ != db.file_rows()[i].path@);
        }
    }
}

/// Whether the decision on a file's bytes is to skip them: too large, not
/// UTF-8, or with the content already stored at `path`.
pub open spec fn content_skipped(db: Db, path: Seq<char>, bytes: Seq<u8>) -> bool {
    ||| bytes.len() >= MAX_SOURCE_BYTES
    ||| !valid_utf8(bytes)
    ||| (stored(db, path) is Some && stored(db, path)->0.sha256@ == hex_lower(sha256_of(bytes)))
}

/// What to do with a file whose bytes were read.
#[derive(Debug)]
pub enum ContentDecision {
    /// Nothing to do: too large, not UTF-8, or the stored content is the same.
    Skip,
    /// Parse it; its content hash is given.
    Parse(String),
}

/// Decides on a file whose bytes were read: files of 4 MiB or more, and
/// files that are not UTF-8, are skipped; so is a file whose stored hash is
/// the same, after its stored modification time and size are brought up to
/// date. Otherwise the file is to be parsed.
pub fn content_decision(db: &mut Db, path: &str, bytes: &[u8], mtime: i64, size: u64) -> (r: ContentDecision)
    ensures
        (r is Skip) == content_skipped(*old(db), path@, bytes@),
        ({
            let sha = hex_lower(sha256_of(bytes@));
            let old_row = stored(*old(db), path@);
            if bytes@.len() >= MAX_SOURCE_BYTES || !valid_utf8(bytes@) {
                &&& r is Skip
                &&& *final(db) == *old(db)
            } else if old_row is Some && old_row->0.sha256@ == sha {
                let f = old_row->0;
                &&& r is Skip
                &&& if f.mtime != mtime || f.size != size {
                    &&& final(db).file_rows() == old(db).file_rows().update(
                        path_index(old(db).file_rows(), path@),
                        FileRow {
                            id: f.id,
                            path: f.path,
                            language: f.language,
                            sha256: f.sha256,
                            size,
                            mtime,
                            indexed_at: f.indexed_at,
                        },
                    )
                    &&& final(db).node_rows() == old(db).node_rows()
                    &&& final(db).edge_rows() == old(db).edge_rows()
                    &&& final(db).next_file() == old(db).next_file()
                    &&& final(db).next_node() == old(db).next_node()
                } else {
                    *final(db) == *old(db)
                }
            } else {
                &&& r matches ContentDecision::Parse(s) && s@ == sha
                &&& *final(db) == *old(db)
            }
        }),
{
    if bytes.len() >= MAX_SOURCE_BYTES {
        return ContentDecision::Skip;
    }
    if utf8_text(bytes).is_none() {
        return ContentDecision::Skip;
    }
    let sha = content_sha256(bytes);
    match db.file_by_path(path) {
        Some(f) => {
            proof {
                lemma_stored(*db, path@, f);
            }
            if str_eq(f.sha256.as_str(), sha.as_str()) {
                if f.mtime != mtime || f.size != size {
                    let _ = db.update_file_metadata(path, mtime, size);
                }
                ContentDecision::Skip
            } else {
                ContentDecision::Parse(sha)
            }
        },
        None => ContentDecision::Parse(sha),
    }
}

/// The local relations whose two ends are among the first `n` symbols.
pub open spec fn kept_edges(les: Seq<LocalEdge>, n: int) -> Seq<LocalEdge> {
    les.filter(|e: LocalEdge| e.from_idx < n && e.to_idx < n)
}

/// The calls whose calling symbol is among the first `n` symbols.
pub open spec fn kept_calls(pcs: Seq<PendingCall>, n: int) -> Seq<PendingCall> {
    pcs.filter(|c: PendingCall| c.from_idx < n)
}

/// Whether `d` is the draft stored for local relation `e` of the file with
/// id `fid`, whose symbols got the ids from `base` on.
pub open spec fn draft_of_local(d: EdgeDraft, e: LocalEdge, base: int, fid: i64) -> bool {
    &&& d.from_id == base + e.from_idx
    &&& d.to_id == base + e.to_idx
    &&& d.kind == e.kind
    &&& d.file_id == Some(fid)
    &&& d.line == e.line
    &&& d.source matches Some(s) && s@ == "extract"@
}

/// Whether `r` is the call site to resolve for call `c` of the file with id
/// `fid`, whose symbols got the ids from `base` on.
pub open spec fn call_row_of(r: PendingCallRow, c: PendingCall, base: int, fid: i64) -> bool {
    &&& r.from_id == base + c.from_idx
    &&& r.target_name == c.target_name
    &&& r.file_id == fid
    &&& r.line == c.line
}

/// The id of the stored file at `p` (meaningful where there is one).
pub open spec fn stored_id(db: Db, p: Seq<char>) -> i64 {
    stored(db, p)->0.id->0
}

/// The file rows once the stored file at `p`, if any, is removed.
pub open spec fn cleared_files(db: Db, p: Seq<char>) -> Seq<FileRow> {
    if has_path(db.file_rows(), p) {
        let fid = stored_id(db, p);
        db.file_rows().filter(|f: FileRow| f.id != Some(fid))
    } else {
        db.file_rows()
    }
}

/// The symbol rows once the stored file at `p`, if any, is removed.
pub open spec fn cleared_nodes(db: Db, p: Seq<char>) -> Seq<NodeRow> {
    if has_path(db.file_rows(), p) {
        let fid = stored_id(db, p);
        db.node_rows().filter(|n: NodeRow| n.file_id != fid)
    } else {
        db.node_rows()
    }
}

/// The relation rows once the stored file at `p`, if any, is removed.
pub open spec fn cleared_edges(db: Db, p: Seq<char>) -> Seq<EdgeRow> {
    if has_path(db.file_rows(), p) {
        let fid = stored_id(db, p);
        db.edge_rows().filter(|e: EdgeRow| edge_survives(db.node_rows(), fid, e))
    } else {
        db.edge_rows()
    }
}

/// Whether a parsed file has the content already stored for its path.
pub open spec fn unchanged_content(db: Db, p: Parsed) -> bool {
    stored(db, p.row.path@) is Some && stored(db, p.row.path@)->0.sha256@ == p.row.sha256@
}

/// Whether storing a parsed file fails: the file or symbol ids would run out.
pub open spec fn store_fails(db: Db, p: Parsed) -> bool {
    &&& !unchanged_content(db, p)
    &&& (db.next_file() == i64::MAX || db.next_node() + p.result.nodes@.len() > i64::MAX)
}

/// `a + n` on a 64-bit counter that wraps around.
pub open spec fn count_add(a: u64, n: int) -> u64 {
    if a + n > u64::MAX {
        (a + n - 0x1_0000_0000_0000_0000) as u64
    } else {
        (a + n) as u64
    }
}

/// What storing parsed file `p` into `d0` leaves: the store `d1`, the call
/// sites `pend1` and the counts `s1`, from the call sites `pend0` and counts
/// `s0` before.
pub open spec fn file_applied(
    d0: Db,
    d1: Db,
    p: Parsed,
    pend0: Seq<PendingCallRow>,
    pend1: Seq<PendingCallRow>,
    s0: ExtractStats,
    s1: ExtractStats,
) -> bool {
    if unchanged_content(d0, p) {
        &&& d1 == d0
        &&& pend1 == pend0
        &&& s1 == ExtractStats { skipped: (s0.skipped + 1) as u64, ..s0 }
    } else {
        let path = p.row.path;
        let nf = d0.next_file();
        let nn = d0.next_node();
        let drafts = p.result.nodes@;
        let n = drafts.len();
        let kept = kept_edges(p.result.edges@, n as int);
        let calls = kept_calls(p.result.pending_calls@, n as int);
        &&& d1.file_rows() == cleared_files(d0, path@).push(with_id(p.row, nf))
        &&& d1.next_file() == nf + 1
        &&& d1.node_rows() == cleared_nodes(d0, path@) + Seq::new(
            n,
            |k: int| NodeRow { node: node_of_draft(drafts[k], (nn + k) as i64, path), file_id: nf },
        )
        &&& d1.next_node() == nn + n
        &&& exists|ds: Seq<EdgeDraft>|
            {
                &&& ds.len() == kept.len()
                &&& forall|k: int| 0 <= k < ds.len() ==> draft_of_local(#[trigger] ds[k], kept[k], nn as int, nf)
                &&& d1.edge_rows() == cleared_edges(d0, path@) + Seq::new(
                    ds.len(),
                    |k: int| edge_row_of_draft(ds[k], Some(path)),
                )
            }
        &&& pend1.len() == pend0.len() + calls.len()
        &&& pend1.subrange(0, pend0.len() as int) == pend0
        &&& forall|k: int| 0 <= k < calls.len() ==> call_row_of(#[trigger] pend1[pend0.len() + k], calls[k], nn as int, nf)
        &&& s1 == ExtractStats {
            files: (s0.files + 1) as u64,
            nodes: (s0.nodes + n) as u64,
            edges: count_add(s0.edges, kept.len() as int),
            ..s0
        }
    }
}

/// The file part of the store's well-formedness: file ids are set, positive,
/// below the next fresh id and distinct, and file paths are distinct.
pub open spec fn files_ok(d: Db) -> bool {
    &&& 1 <= d.next_file()
    &&& forall|i: int| 0 <= i < d.file_rows().len() ==> {
        &&& (#[trigger] d.file_rows()[i]).id is Some
        &&& 1 <= d.file_rows()[i].id.unwrap() < d.next_file()
    }
    &&& forall|i: int, j: int| 0 <= i < j < d.file_rows().len() ==>
        #[trigger] d.file_rows()[i].id != #[trigger] d.file_rows()[j].id
        && d.file_rows()[i].path@ != d.file_rows()[j].path@
}

proof fn lemma_cleared_no_path(d0: Db, p: Seq<char>)
    requires
        files_ok(d0),
    ensures
        !has_path(cleared_files(d0, p), p),
        forall|i: int| 0 <= i < cleared_files(d0, p).len() ==> {
            &&& (#[trigger] cleared_files(d0, p)[i]).id is Some
            &&& cleared_files(d0, p)[i].id->0 < d0.next_file()
        },
{
    broadcast use vstd::seq_lib::group_filter_ensures;
    let rows = d0.file_rows();
    if has_path(rows, p) {
        let pi = path_index(rows, p);
        let fid = stored_id(d0, p);
        assert(rows[pi].id == Some(fid));
        let pred = |f: FileRow| f.id != Some(fid);
        let c = rows.filter(pred);
        assert(c == cleared_files(d0, p));
        assert forall|i: int| 0 <= i < c.len() implies (#[trigger] c[i]).path@ != p && c[i].id is Some
            && c[i].id->0 < d0.next_file() by {
            let x = c[i];
            assert(pred(x));
            assert(c.contains(x));
            rows.lemma_filter_contains_rev(pred, x);
            let j = choose|j: int| 0 <= j < rows.len() && rows[j] == x;
            if x.path@ == p && j != pi {
                if j < pi {
                    assert(rows[j].path@ != rows[pi].path@);
                } else {
                    assert(rows[pi].path@ != rows[j].path@);
                }
            }
        }
    }
}

proof fn lemma_fresh_file(files: Seq<FileRow>, f: FileRow, nf: i64)
    requires
        forall|i: int| 0 <= i < files.len() ==> (#[trigger] files[i]).id is Some && files[i].id->0 < nf,
    ensures
        has_file_id(files.push(with_id(f, nf)), nf),
        file_id_index(files.push(with_id(f, nf)), nf) == files.len(),
        files.push(with_id(f, nf))[file_id_index(files.push(with_id(f, nf)), nf)].path == f.path,
        edge_file_path(files.push(with_id(f, nf)), Some(nf)) == Some(f.path),
{
    let fs = files.push(with_id(f, nf));
    assert(fs[files.len() as int].id == Some(nf));
    let k = file_id_index(fs, nf);
    if k != files.len() {
        assert(fs[k] == files[k]);
    }
}

/// Stores one parsed file: a file whose content is already stored is
/// skipped; otherwise the stored file at its path, if any, is removed with its
/// symbols and relations, and the file, its symbols, its relations between
/// them are stored and its calls queued for resolution.
pub fn apply_one(
    db: &mut Db,
    p: Parsed,
    pending: &mut Vec<PendingCallRow>,
    stats: &mut ExtractStats,
) -> (r: Result<(), Error>)
    requires
        old(stats).files < u64::MAX,
        old(stats).skipped < u64::MAX,
        old(stats).nodes <= old(db).next_node(),
    ensures
        r is Err <==> store_fails(*old(db), p),
        r is Ok ==> file_applied(*old(db), *final(db), p, old(pending)@, final(pending)@, *old(stats), *final(stats)),
        r is Ok ==> final(stats).nodes <= final(db).next_node(),
{
    let ghost d0 = *db;
    let ghost pend0 = pending@;
    let ghost p0 = p;
    let _ = db.node_count();
    let Parsed { row, result } = p;
    match db.file_by_path(row.path.as_str()) {
        Some(existing) => {
            proof {
                lemma_stored(d0, row.path@, existing);
            }
            if str_eq(existing.sha256.as_str(), row.sha256.as_str()) {
                stats.skipped = stats.skipped + 1;
                return Ok(());
            }
            match existing.id {
                Some(eid) => {
                    let _ = db.delete_file_cascade(eid);
                },
                None => {},
            }
        },
        None => {},
    }
    let ghost d_mid = *db;
    proof {
        lemma_cleared_no_path(d0, row.path@);
    }
    assert(!unchanged_content(d0, p0));
    assert(d_mid.file_rows() == cleared_files(d0, row.path@));
    assert(d_mid.node_rows() == cleared_nodes(d0, row.path@));
    assert(d_mid.edge_rows() == cleared_edges(d0, row.path@));
    assert(d_mid.next_file() == d0.next_file());
    assert(d_mid.next_node() == d0.next_node());
    let fid = match db.upsert_file(&row) {
        Ok(fid) => fid,
        Err(e) => {
            return Err(e);
        },
    };
    proof {
        lemma_fresh_file(cleared_files(d0, row.path@), row, d0.next_file());
    }
    let ids = match db.insert_nodes(fid, result.nodes.as_slice()) {
        Ok(ids) => ids,
        Err(e) => {
            return Err(e);
        },
    };
    let n = ids.len();
    let ghost nn = d0.next_node();
    assert(db.file_rows() == cleared_files(d0, row.path@).push(with_id(row, d0.next_file())));
    assert(db.node_rows() == cleared_nodes(d0, row.path@) + Seq::new(
        n as nat,
        |k: int| NodeRow { node: node_of_draft(result.nodes@[k], (nn + k) as i64, row.path), file_id: fid },
    ));
    let ghost les = result.edges@;
    let ghost epred = |e: LocalEdge| e.from_idx < n && e.to_idx < n;
    let mut drafts: Vec<EdgeDraft> = Vec::new();
    let mut i: usize = 0;
    while i < result.edges.len()
        invariant
            0 <= i <= les.len(),
            les == result.edges@,
            n == ids@.len(),
            forall|k: int| 0 <= k < n ==> #[trigger] ids@[k] == nn + k,
            epred == (|e: LocalEdge| e.from_idx < n && e.to_idx < n),
            drafts@.len() == les.take(i as int).filter(epred).len(),
            forall|k: int| 0 <= k < drafts@.len() ==> draft_of_local(
                #[trigger] drafts@[k],
                les.take(i as int).filter(epred)[k],
                nn as int,
                fid,
            ),
        decreases les.len() - i,
    {
        let e = &result.edges[i];
        proof {
            assert(les.take(i + 1).drop_last() =~= les.take(i as int));
            reveal_with_fuel(Seq::<_>::filter, 1);
        }
        if e.from_idx < n && e.to_idx < n {
            let d = EdgeDraft {
                from_id: ids[e.from_idx],
                to_id: ids[e.to_idx],
                kind: e.kind,
                file_id: Some(fid),
                line: e.line,
                source: Some("extract".to_owned()),
            };
            drafts.push(d);
        }
        i = i + 1;
    }
    proof {
        assert(les.take(les.len() as int) =~= les);
    }
    stats.nodes = stats.nodes + n as u64;
    stats.edges = stats.edges.wrapping_add(drafts.len() as u64);
    match db.insert_edges(drafts.as_slice()) {
        Ok(()) => {},
        Err(e) => {
            return Err(e);
        },
    }
    let ghost pcs = result.pending_calls@;
    let ghost cpred = |c: PendingCall| c.from_idx < n;
    let mut j: usize = 0;
    while j < result.pending_calls.len()
        invariant
            0 <= j <= pcs.len(),
            pcs == result.pending_calls@,
            n == ids@.len(),
            forall|k: int| 0 <= k < n ==> #[trigger] ids@[k] == nn + k,
            cpred == (|c: PendingCall| c.from_idx < n),
            pending@.len() == pend0.len() + pcs.take(j as int).filter(cpred).len(),
            pending@.subrange(0, pend0.len() as int) == pend0,
            forall|k: int| 0 <= k < pcs.take(j as int).filter(cpred).len() ==> call_row_of(
                #[trigger] pending@[pend0.len() + k],
                pcs.take(j as int).filter(cpred)[k],
                nn as int,
                fid,
            ),
        decreases pcs.len() - j,
    {
        let pc = &result.pending_calls[j];
        proof {
            assert(pcs.take(j + 1).drop_last() =~= pcs.take(j as int));
            reveal_with_fuel(Seq::<_>::filter, 1);
        }
        if pc.from_idx < n {
            let ghost before = pending@;
            pending.push(
                PendingCallRow {
                    from_id: ids[pc.from_idx],
                    target_name: pc.target_name.clone(),
                    file_id: fid,
                    line: pc.line,
                },
            );
            proof {
                assert(pending@.subrange(0, pend0.len() as int) =~= before.subrange(0, pend0.len() as int));
            }
        }
        j = j + 1;
    }
    proof {
        assert(pcs.take(pcs.len() as int) =~= pcs);
        let nf = d0.next_file();
        let path = p0.row.path;
        let kept = kept_edges(p0.result.edges@, n as int);
        let calls = kept_calls(p0.result.pending_calls@, n as int);
        assert(epred =~= (|e: LocalEdge| e.from_idx < (n as int) && e.to_idx < (n as int)));
        assert(kept == les.filter(epred));
        assert(cpred =~= (|c: PendingCall| c.from_idx < (n as int)));
        assert(calls == pcs.filter(cpred));
        let ds = drafts@;
        assert(ds.len() == kept.len());
        assert(forall|k: int| 0 <= k < ds.len() ==> draft_of_local(#[trigger] ds[k], kept[k], nn as int, nf));
        assert(db.edge_rows() == cleared_edges(d0, path@) + Seq::new(
            ds.len(),
            |k: int| edge_row_of_draft(ds[k], Some(path)),
        ));
    }
    stats.files = stats.files + 1;
    Ok(())
}

/// Whether the stores `ds`, call sites `ps` and counts `ss` are the states
/// that storing the parsed files `items`, in order, goes through from `db0`.
pub open spec fn chain_applied(
    db0: Db,
    items: Seq<Parsed>,
    ds: Seq<Db>,
    ps: Seq<Seq<PendingCallRow>>,
    ss: Seq<ExtractStats>,
) -> bool {
    &&& ds.len() == items.len() + 1
    &&& ps.len() == items.len() + 1
    &&& ss.len() == items.len() + 1
    &&& ds[0] == db0
    &&& ps[0].len() == 0
    &&& ss[0] == (ExtractStats { files: 0, nodes: 0, edges: 0, skipped: 0, resolved_calls: 0 })
    &&& forall|k: int|
        #![trigger items[k]]
        0 <= k < items.len() ==> file_applied(ds[k], ds[k + 1], items[k], ps[k], ps[k + 1], ss[k], ss[k + 1])
}

/// What storing the parsed files `items`, in order, into `db0` leaves: the
/// store `db1`, the call sites to resolve `pend` and the counts `st`.
pub open spec fn applied(
    db0: Db,
    db1: Db,
    items: Seq<Parsed>,
    pend: Seq<PendingCallRow>,
    st: ExtractStats,
) -> bool {
    exists|ds: Seq<Db>, ps: Seq<Seq<PendingCallRow>>, ss: Seq<ExtractStats>|
        #![trigger chain_applied(db0, items, ds, ps, ss)]
        {
            &&& chain_applied(db0, items, ds, ps, ss)
            &&& ds.last() == db1
            &&& ps.last() == pend
            &&& ss.last() == st
        }
}

/// Whether storing the parsed files `items` into `db0`, then resolving the
/// calls they hold, leaves `db1` with the counts `st`; the counts add the
/// resolved calls to the relations.
pub open spec fn applied_then_resolved(db0: Db, db1: Db, items: Seq<Parsed>, st: ExtractStats) -> bool {
    exists|dm: Db, pm: Seq<PendingCallRow>, sm: ExtractStats, n: usize|
        {
            &&& applied(db0, dm, items, pm, sm)
            &&& resolved(dm, db1, pm, Ok(n))
            &&& st == ExtractStats { resolved_calls: n as u64, edges: count_add(sm.edges, n as int), ..sm }
        }
}

/// Whether storing the parsed files `items` into `db0`, then resolving their
/// calls, fails and leaves `db1`: storing one of them fails, or the
/// resolution does.
pub open spec fn apply_failed(db0: Db, db1: Db, items: Seq<Parsed>) -> bool {
    ||| exists|k: int, dk: Db, pk: Seq<PendingCallRow>, sk: ExtractStats|
        {
            &&& 0 <= k < items.len()
            &&& applied(db0, dk, items.take(k), pk, sk)
            &&& store_fails(dk, items[k])
        }
    ||| exists|dm: Db, pm: Seq<PendingCallRow>, sm: ExtractStats, e: Error|
        {
            &&& applied(db0, dm, items, pm, sm)
            &&& resolved(dm, db1, pm, Err(e))
        }
}

/// Stores the parsed files in order (see [`apply_one`]), then resolves the
/// calls they hold; the counts add the resolved calls to the relations.
/// Fails when storing a file fails, or when the resolution does.
pub fn apply(db: &mut Db, parsed: Vec<Parsed>) -> (r: Result<ExtractStats, Error>)
    ensures
        match r {
            Ok(st) => applied_then_resolved(*old(db), *final(db), parsed@, st),
            Err(_) => apply_failed(*old(db), *final(db), parsed@),
        },
{
    let ghost db0 = *db;
    let ghost items = parsed@;
    let mut stats = ExtractStats { files: 0, nodes: 0, edges: 0, skipped: 0, resolved_calls: 0 };
    let mut pending: Vec<PendingCallRow> = Vec::new();
    let _ = db.node_count();
    let ghost mut ds: Seq<Db> = seq![*db];
    let ghost mut ps: Seq<Seq<PendingCallRow>> = seq![pending@];
    let ghost mut ss: Seq<ExtractStats> = seq![stats];
    proof {
        assert(items.take(0) =~= Seq::<Parsed>::empty());
        assert(chain_applied(db0, items.take(0), ds, ps, ss));
    }
    let mut rest = parsed;
    let mut i: usize = 0;
    let n = rest.len();
    while i < n
        invariant
            0 <= i <= n,
            n == items.len(),
            rest@ == items.subrange(i as int, n as int),
            chain_applied(db0, items.take(i as int), ds, ps, ss),
            db0 == *old(db),
            items == parsed@,
            ds.last() == *db,
            ps.last() == pending@,
            ss.last() == stats,
            stats.files + stats.skipped == i,
            stats.nodes <= db.next_node(),
        decreases n - i,
    {
        let p = rest.remove(0);
        assert(p == items[i as int]);
        let ghost dprev = *db;
        let ghost pprev = pending@;
        let ghost sprev = stats;
        match apply_one(db, p, &mut pending, &mut stats) {
            Ok(()) => {},
            Err(e) => {
                assert(store_fails(dprev, items[i as int]));
                assert(exists|k: int, dk: Db, pk: Seq<PendingCallRow>, sk: ExtractStats|
                    {
                        &&& 0 <= k < items.len()
                        &&& applied(db0, dk, items.take(k), pk, sk)
                        &&& store_fails(dk, items[k])
                    }) by {
                    assert(chain_applied(db0, items.take(i as int), ds, ps, ss));
                    assert(applied(db0, dprev, items.take(i as int), pprev, sprev));
                }
                return Err(e);
            },
        }
        proof {
            assert(rest@ =~= items.subrange(i + 1, n as int));
            let t = items.take(i + 1);
            assert(t.drop_last() =~= items.take(i as int));
            assert(t.last() == items[i as int]);
            assert(file_applied(dprev, *db, t.last(), pprev, pending@, sprev, stats));
            let ds2 = ds.push(*db);
            let ps2 = ps.push(pending@);
            let ss2 = ss.push(stats);
            assert forall|k: int| #![trigger t[k]] 0 <= k < t.len() implies file_applied(
                ds2[k],
                ds2[k + 1],
                t[k],
                ps2[k],
                ps2[k + 1],
                ss2[k],
                ss2[k + 1],
            ) by {
                if k < i {
                    assert(t[k] == items.take(i as int)[k]);
                }
            }
            ds = ds2;
            ps = ps2;
            ss = ss2;
            assert(chain_applied(db0, t, ds, ps, ss));
        }
        i = i + 1;
    }
    proof {
        assert(items.take(n as int) =~= items);
        assert(chain_applied(db0, items, ds, ps, ss));
    }
    let ghost dm = *db;
    let ghost pm = pending@;
    let ghost sm = stats;
    let res = crate::resolve::resolve_calls_in(db, pending.as_slice());
    assert(resolved(dm, *db, pm, res));
    let resolved_n = match res {
        Ok(k) => k,
        Err(e) => {
            assert(exists|dm2: Db, pm2: Seq<PendingCallRow>, sm2: ExtractStats, e2: Error|
                {
                    &&& applied(db0, dm2, items, pm2, sm2)
                    &&& resolved(dm2, *db, pm2, Err(e2))
                }) by {
                assert(applied(db0, dm, items, pm, sm));
                assert(resolved(dm, *db, pm, Err(e)));
            }
            return Err(e);
        },
    };
    stats.resolved_calls = resolved_n as u64;
    stats.edges = stats.edges.wrapping_add(resolved_n as u64);
    assert(applied(db0, dm, items, pm, sm));
    assert(resolved(dm, *db, pm, Ok(resolved_n)));
    assert(applied_then_resolved(db0, *db, items, stats));
    Ok(stats)
}

/// Storing a parsed file makes its content the stored one: storing the same
/// parsed file again is skipped and changes nothing.
pub proof fn lemma_store_then_unchanged(
    d0: Db,
    d1: Db,
    p: Parsed,
    pend0: Seq<PendingCallRow>,
    pend1: Seq<PendingCallRow>,
    s0: ExtractStats,
    s1: ExtractStats,
)
    requires
        files_ok(d0),
        file_applied(d0, d1, p, pend0, pend1, s0, s1),
    ensures
        unchanged_content(d1, p),
        stored(d1, p.row.path@) == if unchanged_content(d0, p) {
            stored(d0, p.row.path@)
        } else {
            Some(with_id(p.row, d0.next_file()))
        },
{
    if !unchanged_content(d0, p) {
        lemma_cleared_no_path(d0, p.row.path@);
        let c = cleared_files(d0, p.row.path@);
        let rows = d1.file_rows();
        assert(rows[c.len() as int] == with_id(p.row, d0.next_file()));
        assert(has_path(rows, p.row.path@));
        let j = path_index(rows, p.row.path@);
        if j != c.len() {
            assert(rows[j] == c[j]);
        }
    }
}

/// Drops the file at `path` from the index, with its symbols and their
/// relations, where it is stored; a path that is not stored is left alone.
pub fn forget_file(db: &mut Db, path: &str) -> (r: Result<(), Error>)
    ensures
        r is Ok,
        final(db).file_rows() == cleared_files(*old(db), path@),
        final(db).node_rows() == cleared_nodes(*old(db), path@),
        final(db).edge_rows() == cleared_edges(*old(db), path@),
        final(db).next_file() == old(db).next_file(),
        final(db).next_node() == old(db).next_node(),
{
    match db.file_by_path(path) {
        Some(f) => {
            proof {
                lemma_stored(*db, path@, f);
            }
            match f.id {
                Some(fid) => db.delete_file_cascade(fid),
                None => Ok(()),
            }
        },
        None => Ok(()),
    }
}

/// The parsed files among the outcomes of reading files, in order.
pub open spec fn parsed_of(rs: Seq<Result<Option<Parsed>, Error>>) -> Seq<Parsed>
    decreases rs.len(),
{
    if rs.len() == 0 {
        Seq::empty()
    } else {
        let before = parsed_of(rs.drop_last());
        match rs.last() {
            Ok(Some(p)) => before.push(p),
            _ => before,
        }
    }
}

/// How many of the outcomes of reading files say that a file was skipped.
pub open spec fn skipped_of(rs: Seq<Result<Option<Parsed>, Error>>) -> nat
    decreases rs.len(),
{
    if rs.len() == 0 {
        0
    } else {
        skipped_of(rs.drop_last()) + if rs.last() matches Ok(None) {
            1nat
        } else {
            0nat
        }
    }
}

proof fn lemma_skipped_le(rs: Seq<Result<Option<Parsed>, Error>>)
    ensures
        skipped_of(rs) <= rs.len(),
    decreases rs.len(),
{
    if rs.len() > 0 {
        lemma_skipped_le(rs.drop_last());
    }
}

/// Sorts the outcomes of reading files: the parsed files, in order, and the
/// number of files skipped. Files that could not be read count as neither.
pub fn gather_parsed(results: Vec<Result<Option<Parsed>, Error>>) -> (r: (Vec<Parsed>, u64))
    ensures
        r.0@ == parsed_of(results@),
        r.1 == skipped_of(results@),
{
    let ghost rs = results@;
    let mut parsed: Vec<Parsed> = Vec::new();
    let mut skipped: u64 = 0;
    let mut rest = results;
    let n = rest.len();
    let mut i: usize = 0;
    while i < n
        invariant
            0 <= i <= n,
            n == rs.len(),
            rest@ == rs.subrange(i as int, n as int),
            parsed@ == parsed_of(rs.take(i as int)),
            skipped == skipped_of(rs.take(i as int)),
        decreases n - i,
    {
        let x = rest.remove(0);
        proof {
            let t = rs.take(i + 1);
            assert(t.drop_last() =~= rs.take(i as int));
            assert(t.last() == x);
            lemma_skipped_le(rs.take(i as int));
            assert(rest@ =~= rs.subrange(i + 1, n as int));
        }
        match x {
            Ok(Some(p)) => parsed.push(p),
            Ok(None) => skipped = skipped + 1,
            Err(_) => {},
        }
        i = i + 1;
    }
    assert(rs.take(n as int) =~= rs);
    (parsed, skipped)
}

/// Ends a pass: stores the parsed files (see [`apply`]) and adds the files
/// skipped before parsing to the count of skipped files.
pub fn finish_sync(db: &mut Db, parsed: Vec<Parsed>, skipped: u64) -> (r: Result<ExtractStats, Error>)
    ensures
        match r {
            Ok(st) => exists|s0: ExtractStats|
                {
                    &&& applied_then_resolved(*old(db), *final(db), parsed@, s0)
                    &&& st == ExtractStats { skipped: count_add(s0.skipped, skipped as int), ..s0 }
                },
            Err(_) => apply_failed(*old(db), *final(db), parsed@),
        },
{
    let r = apply(db, parsed);
    match r {
        Ok(st) => {
            let mut st2 = st;
            st2.skipped = st.skipped.wrapping_add(skipped);
            Ok(st2)
        },
        Err(e) => Err(e),
    }
}

/// Ids and paths pairwise distinct.
pub open spec fn rows_distinct(rows: Seq<FileRow>) -> bool {
    forall|i: int, j: int| 0 <= i < j < rows.len() ==>
        #[trigger] rows[i].id != #[trigger] rows[j].id && rows[i].path@ != rows[j].path@
}

proof fn lemma_filter_distinct(rows: Seq<FileRow>, pred: spec_fn(FileRow) -> bool)
    requires
        rows_distinct(rows),
    ensures
        rows_distinct(rows.filter(pred)),
        forall|i: int| 0 <= i < rows.filter(pred).len() ==> rows.contains(#[trigger] rows.filter(pred)[i]),
    decreases rows.len(),
{
    broadcast use vstd::seq_lib::group_filter_ensures;
    if rows.len() > 0 {
        let init = rows.drop_last();
        let last = rows.last();
        assert(rows_distinct(init));
        lemma_filter_distinct(init, pred);
        reveal_with_fuel(Seq::<_>::filter, 1);
        assert(rows =~= init.push(last));
        let f = rows.filter(pred);
        let fi = init.filter(pred);
        assert(f == if pred(last) { fi.push(last) } else { fi });
        assert forall|i: int| 0 <= i < f.len() implies rows.contains(#[trigger] f[i]) by {
            if i < fi.len() {
                assert(init.contains(fi[i]));
                let j = choose|j: int| 0 <= j < init.len() && init[j] == fi[i];
                assert(rows[j] == fi[i]);
            } else {
                assert(rows[rows.len() - 1] == f[i]);
            }
        }
        if pred(last) {
            assert forall|i: int, j: int| 0 <= i < j < f.len() implies #[trigger] f[i].id != #[trigger] f[j].id
                && f[i].path@ != f[j].path@ by {
                if j == f.len() - 1 {
                    assert(init.contains(fi[i]));
                    let a = choose|a: int| 0 <= a < init.len() && init[a] == fi[i];
                    assert(rows[a] == f[i]);
                    assert(rows[rows.len() - 1] == f[j]);
                } else {
                    assert(f[i] == fi[i] && f[j] == fi[j]);
                }
            }
        }
    }
}

proof fn lemma_files_ok_kept(
    d0: Db,
    d1: Db,
    p: Parsed,
    pend0: Seq<PendingCallRow>,
    pend1: Seq<PendingCallRow>,
    s0: ExtractStats,
    s1: ExtractStats,
)
    requires
        files_ok(d0),
        file_applied(d0, d1, p, pend0, pend1, s0, s1),
    ensures
        files_ok(d1),
{
    if !unchanged_content(d0, p) {
        let path = p.row.path@;
        lemma_cleared_no_path(d0, path);
        let c = cleared_files(d0, path);
        assert(rows_distinct(d0.file_rows()));
        if has_path(d0.file_rows(), path) {
            let fid = stored_id(d0, path);
            lemma_filter_distinct(d0.file_rows(), |f: FileRow| f.id != Some(fid));
        }
        assert(rows_distinct(c));
        let nf = d0.next_file();
        let rows = d1.file_rows();
        assert(rows == c.push(with_id(p.row, nf)));
        assert forall|i: int, j: int| 0 <= i < j < rows.len() implies #[trigger] rows[i].id != #[trigger] rows[j].id
            && rows[i].path@ != rows[j].path@ by {
            if j == rows.len() - 1 {
                assert(rows[i] == c[i]);
                assert(c[i].id->0 < nf);
                assert(!has_path(c, path));
            } else {
                assert(rows[i] == c[i] && rows[j] == c[j]);
            }
        }
        assert forall|i: int| 0 <= i < rows.len() implies {
            &&& (#[trigger] rows[i]).id is Some
            &&& 1 <= rows[i].id.unwrap() < d1.next_file()
        } by {
            if i < c.len() {
                assert(rows[i] == c[i]);
                if has_path(d0.file_rows(), path) {
                    assert(d0.file_rows().contains(c[i]));
                } else {
                    assert(c[i] == d0.file_rows()[i]);
                }
            }
        }
    }
}

proof fn lemma_other_path_kept(
    d0: Db,
    d1: Db,
    p: Parsed,
    q: Seq<char>,
    pend0: Seq<PendingCallRow>,
    pend1: Seq<PendingCallRow>,
    s0: ExtractStats,
    s1: ExtractStats,
)
    requires
        files_ok(d0),
        file_applied(d0, d1, p, pend0, pend1, s0, s1),
        q != p.row.path@,
    ensures
        stored(d1, q) == stored(d0, q),
{
    if !unchanged_content(d0, p) {
        broadcast use vstd::seq_lib::group_filter_ensures;
        let path = p.row.path@;
        lemma_files_ok_kept(d0, d1, p, pend0, pend1, s0, s1);
        lemma_cleared_no_path(d0, path);
        let rows0 = d0.file_rows();
        let c = cleared_files(d0, path);
        let rows1 = d1.file_rows();
        assert(rows1 == c.push(with_id(p.row, d0.next_file())));
        if has_path(rows0, path) {
            let fid = stored_id(d0, path);
            lemma_filter_distinct(rows0, |f: FileRow| f.id != Some(fid));
        }
        if has_path(rows0, q) {
            let qi = path_index(rows0, q);
            let r = rows0[qi];
            if has_path(rows0, path) {
                let pi = path_index(rows0, path);
                let fid = stored_id(d0, path);
                let pred = |f: FileRow| f.id != Some(fid);
                assert(qi != pi);
                assert(pred(r));
                rows0.lemma_filter_contains(pred, qi);
                assert(c.contains(r));
            } else {
                assert(c[qi] == r);
            }
            let m = choose|m: int| 0 <= m < c.len() && c[m] == r;
            assert(rows1[m] == r);
            assert(has_path(rows1, q));
            let k = path_index(rows1, q);
            if k != m {
                if k < m {
                    assert(rows1[k].path@ != rows1[m].path@);
                } else {
                    assert(rows1[m].path@ != rows1[k].path@);
                }
            }
        } else {
            assert forall|i: int| 0 <= i < rows1.len() implies (#[trigger] rows1[i]).path@ != q by {
                if i < c.len() {
                    assert(rows1[i] == c[i]);
                    if has_path(rows0, path) {
                        assert(rows0.contains(c[i]));
                    } else {
                        assert(c[i] == rows0[i]);
                    }
                }
            }
        }
    }
}

/// After storing the first `m` files of a chain, the store is well formed
/// and holds the content of each of them (their paths being distinct).
proof fn lemma_chain_stores(
    db0: Db,
    items: Seq<Parsed>,
    ds: Seq<Db>,
    ps: Seq<Seq<PendingCallRow>>,
    ss: Seq<ExtractStats>,
    m: int,
)
    requires
        files_ok(db0),
        forall|i: int, j: int| 0 <= i < j < items.len() ==> items[i].row.path@ != items[j].row.path@,
        chain_applied(db0, items, ds, ps, ss),
        0 <= m <= items.len(),
    ensures
        files_ok(ds[m]),
        forall|k: int| 0 <= k < m ==> unchanged_content(ds[m], #[trigger] items[k]),
    decreases m,
{
    if m > 0 {
        lemma_chain_stores(db0, items, ds, ps, ss, m - 1);
        let it = items[m - 1];
        assert(file_applied(ds[m - 1], ds[m], it, ps[m - 1], ps[m], ss[m - 1], ss[m]));
        lemma_files_ok_kept(ds[m - 1], ds[m], it, ps[m - 1], ps[m], ss[m - 1], ss[m]);
        lemma_store_then_unchanged(ds[m - 1], ds[m], it, ps[m - 1], ps[m], ss[m - 1], ss[m]);
        assert forall|k: int| 0 <= k < m implies unchanged_content(ds[m], #[trigger] items[k]) by {
            if k < m - 1 {
                assert(unchanged_content(ds[m - 1], items[k]));
                lemma_other_path_kept(ds[m - 1], ds[m], it, items[k].row.path@, ps[m - 1], ps[m], ss[m - 1], ss[m]);
            }
        }
    }
}

/// Storing files whose content is already stored changes nothing: after `m`
/// of them the store, the calls to resolve and the counts are as before, but
/// for `m` more skipped files.
proof fn lemma_chain_skips(
    db0: Db,
    items: Seq<Parsed>,
    ds: Seq<Db>,
    ps: Seq<Seq<PendingCallRow>>,
    ss: Seq<ExtractStats>,
    m: int,
)
    requires
        forall|k: int| 0 <= k < items.len() ==> unchanged_content(db0, #[trigger] items[k]),
        items.len() <= u64::MAX,
        chain_applied(db0, items, ds, ps, ss),
        0 <= m <= items.len(),
    ensures
        ds[m] == db0,
        ps[m] == ps[0],
        ss[m] == (ExtractStats { files: 0, nodes: 0, edges: 0, skipped: m as u64, resolved_calls: 0 }),
    decreases m,
{
    if m > 0 {
        lemma_chain_skips(db0, items, ds, ps, ss, m - 1);
        let it = items[m - 1];
        assert(unchanged_content(db0, it));
        assert(file_applied(ds[m - 1], ds[m], it, ps[m - 1], ps[m], ss[m - 1], ss[m]));
    }
}

/// A second sync parses nothing: once a pass has stored the parsed files,
/// each of them, read again with the bytes its hash was taken from, is
/// skipped.
pub proof fn lemma_synced_files_are_skipped(
    db0: Db,
    db1: Db,
    items: Seq<Parsed>,
    st: ExtractStats,
    bytes: Seq<Seq<u8>>,
)
    requires
        db0.wf(),
        forall|i: int, j: int| 0 <= i < j < items.len() ==> items[i].row.path@ != items[j].row.path@,
        items.len() <= u64::MAX,
        applied_then_resolved(db0, db1, items, st),
        bytes.len() == items.len(),
        forall|k: int| 0 <= k < items.len() ==> (#[trigger] items[k]).row.sha256@ == hex_lower(sha256_of(bytes[k])),
    ensures
        forall|k: int| 0 <= k < items.len() ==> content_skipped(db1, (#[trigger] items[k]).row.path@, bytes[k]),
{
    let (dm, pm, sm, n) = choose|dm: Db, pm: Seq<PendingCallRow>, sm: ExtractStats, n: usize|
        {
            &&& applied(db0, dm, items, pm, sm)
            &&& resolved(dm, db1, pm, Ok(n))
            &&& st == ExtractStats { resolved_calls: n as u64, edges: count_add(sm.edges, n as int), ..sm }
        };
    let (ds, ps, ss) = choose|ds: Seq<Db>, ps: Seq<Seq<PendingCallRow>>, ss: Seq<ExtractStats>|
        {
            &&& chain_applied(db0, items, ds, ps, ss)
            &&& ds.last() == dm
            &&& ps.last() == pm
            &&& ss.last() == sm
        };
    lemma_chain_stores(db0, items, ds, ps, ss, items.len() as int);
    assert forall|k: int| 0 <= k < items.len() implies content_skipped(db1, (#[trigger] items[k]).row.path@, bytes[k]) by {
        assert(unchanged_content(dm, items[k]));
        assert(stored(db1, items[k].row.path@) == stored(dm, items[k].row.path@));
    }
}

/// Indexing the same parsed files a second time, once the first time has
/// succeeded, stores nothing: every file is skipped, no symbol, relation or
/// call is added, and the store is left as it was (the files having distinct
/// paths).
pub proof fn lemma_apply_twice_skips(db0: Db, db1: Db, db2: Db, items: Seq<Parsed>, st1: ExtractStats, st2: ExtractStats)
    requires
        db0.wf(),
        forall|i: int, j: int| 0 <= i < j < items.len() ==> items[i].row.path@ != items[j].row.path@,
        items.len() <= u64::MAX,
        applied_then_resolved(db0, db1, items, st1),
        applied_then_resolved(db1, db2, items, st2),
    ensures
        db2.file_rows() == db1.file_rows(),
        db2.node_rows() == db1.node_rows(),
        db2.edge_rows() == db1.edge_rows(),
        db2.next_file() == db1.next_file(),
        db2.next_node() == db1.next_node(),
        st2 == (ExtractStats { files: 0, nodes: 0, edges: 0, skipped: items.len() as u64, resolved_calls: 0 }),
{
    let (dm, pm, sm, n) = choose|dm: Db, pm: Seq<PendingCallRow>, sm: ExtractStats, n: usize|
        {
            &&& applied(db0, dm, items, pm, sm)
            &&& resolved(dm, db1, pm, Ok(n))
            &&& st1 == ExtractStats { resolved_calls: n as u64, edges: count_add(sm.edges, n as int), ..sm }
        };
    let (ds, ps, ss) = choose|ds: Seq<Db>, ps: Seq<Seq<PendingCallRow>>, ss: Seq<ExtractStats>|
        {
            &&& chain_applied(db0, items, ds, ps, ss)
            &&& ds.last() == dm
            &&& ps.last() == pm
            &&& ss.last() == sm
        };
    lemma_chain_stores(db0, items, ds, ps, ss, items.len() as int);
    assert forall|k: int| 0 <= k < items.len() implies unchanged_content(db1, #[trigger] items[k]) by {
        assert(unchanged_content(dm, items[k]));
        assert(stored(db1, items[k].row.path@) == stored(dm, items[k].row.path@));
    }
    let (dm2, pm2, sm2, n2) = choose|dm: Db, pm: Seq<PendingCallRow>, sm: ExtractStats, n: usize|
        {
            &&& applied(db1, dm, items, pm, sm)
            &&& resolved(dm, db2, pm, Ok(n))
            &&& st2 == ExtractStats { resolved_calls: n as u64, edges: count_add(sm.edges, n as int), ..sm }
        };
    let (ds2, ps2, ss2) = choose|ds: Seq<Db>, ps: Seq<Seq<PendingCallRow>>, ss: Seq<ExtractStats>|
        {
            &&& chain_applied(db1, items, ds, ps, ss)
            &&& ds.last() == dm2
            &&& ps.last() == pm2
            &&& ss.last() == sm2
        };
    lemma_chain_skips(db1, items, ds2, ps2, ss2, items.len() as int);
    assert(pm2.len() == 0);
    assert(pm2 =~= Seq::<PendingCallRow>::empty());
    assert(plan(db1, pm2) =~= Seq::<(PendingCallRow, Node)>::empty());
    assert(db2.edge_rows() =~= db1.edge_rows());
}

/// A second sync parses nothing: once a parsed file is stored, the same
/// bytes read again are skipped.
pub proof fn lemma_stored_file_is_skipped(
    d0: Db,
    d1: Db,
    p: Parsed,
    pend0: Seq<PendingCallRow>,
    pend1: Seq<PendingCallRow>,
    s0: ExtractStats,
    s1: ExtractStats,
    bytes: Seq<u8>,
)
    requires
        d0.wf(),
        file_applied(d0, d1, p, pend0, pend1, s0, s1),
        p.row.sha256@ == hex_lower(sha256_of(bytes)),
    ensures
        content_skipped(d1, p.row.path@, bytes),
{
    lemma_store_then_unchanged(d0, d1, p, pend0, pend1, s0, s1);
}

/// Touching only the modification time re-parses nothing: once the stored
/// time and size of a file are brought up to date, they match the file, so
/// the next sync skips it before reading it.
pub proof fn lemma_touch_refreshes_metadata(d0: Db, d1: Db, path: Seq<char>, mtime: i64, size: u64)
    requires
        d0.wf(),
        stored(d0, path) is Some,
        d1.file_rows() == d0.file_rows().update(
            path_index(d0.file_rows(), path),
            FileRow { mtime, size, ..stored(d0, path)->0 },
        ),
    ensures
        stored(d1, path) matches Some(f) && f.mtime == mtime && f.size == size
            && f.sha256 == stored(d0, path)->0.sha256,
{
    let rows0 = d0.file_rows();
    let rows1 = d1.file_rows();
    let pi = path_index(rows0, path);
    assert(rows1[pi].path@ == path);
    assert(has_path(rows1, path));
    let k = path_index(rows1, path);
    if k != pi {
        assert(rows1[k] == rows0[k]);
        if k < pi {
            assert(rows0[k].path@ != rows0[pi].path@);
        } else {
            assert(rows0[pi].path@ != rows0[k].path@);
        }
    }
}

} // verus!
