//! Call resolution: turns call sites known only by the called name into
//! `calls` relations between stored symbols.

use crate::db::{edge_files_known, has_file_id, has_path, path_index, file_id_index, Db, EdgeRow};
use crate::error::Error;
use crate::kinds::{EdgeKind, NodeKind};
use crate::model::{copy_opt_string, Edge, EdgeDraft, FileRow, Node, NodeId};
use vstd::prelude::*;

verus! {

/// A call site found by an extractor, ready to be resolved.
#[derive(Debug)]
pub struct PendingCallRow {
    pub from_id: NodeId,
    pub target_name: String,
    pub file_id: i64,
    pub line: u32,
}

/// Whether a symbol can be the target of a call.
pub open spec fn is_callable(n: Node) -> bool {
    n.kind == NodeKind::Function || n.kind == NodeKind::Method
}

/// Whether symbol `n` lies in the stored file with id `fid`.
pub open spec fn in_file(files: Seq<FileRow>, n: Node, fid: i64) -> bool {
    &&& has_path(files, n.file@)
    &&& files[path_index(files, n.file@)].id == Some(fid)
}

/// The callable symbols named like the call's target.
pub open spec fn candidates(db: Db, site: PendingCallRow) -> Seq<Node> {
    db.node_seq().filter(|n: Node| n.name@ == site.target_name@).filter(|n: Node| is_callable(n))
}

/// The symbols a call site is linked to: the candidates in the caller's
/// file when there are any, else every candidate.
pub open spec fn targets(db: Db, site: PendingCallRow) -> Seq<Node> {
    let c = candidates(db, site);
    let same = c.filter(|n: Node| in_file(db.file_rows(), n, site.file_id));
    if same.len() > 0 { same } else { c }
}

/// Every (call site, target) pair, site by site in input order.
pub open spec fn plan(db: Db, sites: Seq<PendingCallRow>) -> Seq<(PendingCallRow, Node)>
    decreases sites.len(),
{
    if sites.len() == 0 {
        Seq::empty()
    } else {
        let last = sites.last();
        plan(db, sites.drop_last()) + targets(db, last).map_values(|t: Node| (last, t))
    }
}

/// The relation stored for a (call site, target) pair.
pub open spec fn row_for(files: Seq<FileRow>, row: EdgeRow, p: (PendingCallRow, Node)) -> bool {
    &&& row.edge == Edge {
        from: p.0.from_id,
        to: p.1.id,
        kind: EdgeKind::Calls,
        file: Some(files[file_id_index(files, p.0.file_id)].path),
        line: Some(p.0.line),
    }
    &&& row.file_id == Some(p.0.file_id)
    &&& row.source matches Some(s) && s@ == "resolver:name-match"@
}

/// The draft stored for a (call site, target) pair.
pub open spec fn draft_for(d: EdgeDraft, p: (PendingCallRow, Node)) -> bool {
    &&& d.from_id == p.0.from_id
    &&& d.to_id == p.1.id
    &&& d.kind == EdgeKind::Calls
    &&& d.file_id == Some(p.0.file_id)
    &&& d.line == Some(p.0.line)
    &&& d.source matches Some(s) && s@ == "resolver:name-match"@
}

/// Whether every call site of the plan names a stored file.
pub open spec fn plan_files_known(files: Seq<FileRow>, p: Seq<(PendingCallRow, Node)>) -> bool {
    forall|k: int| 0 <= k < p.len() ==> has_file_id(files, (#[trigger] p[k]).0.file_id)
}

/// What resolving `pending` against `db0` leaves in `db1`, returning `r`.
pub open spec fn resolved(db0: Db, db1: Db, pending: Seq<PendingCallRow>, r: Result<usize, Error>) -> bool {
    let p = plan(db0, pending);
    &&& db1.file_rows() == db0.file_rows()
    &&& db1.workspace_root() == db0.workspace_root()
    &&& db1.node_rows() == db0.node_rows()
    &&& db1.next_file() == db0.next_file()
    &&& db1.next_node() == db0.next_node()
    &&& (r is Ok <==> plan_files_known(db0.file_rows(), p))
    &&& match r {
        Ok(n) => {
            &&& n == p.len()
            &&& db1.edge_rows().len() == db0.edge_rows().len() + n
            &&& db1.edge_rows().subrange(0, db0.edge_rows().len() as int) == db0.edge_rows()
            &&& forall|k: int| 0 <= k < n ==> row_for(
                db0.file_rows(), #[trigger] db1.edge_rows()[db0.edge_rows().len() + k], p[k])
        },
        Err(_) => db1.edge_rows() == db0.edge_rows(),
    }
}

/// The symbols a call site resolves to.
fn site_targets(db: &Db, site: &PendingCallRow) -> (r: Vec<Node>)
    ensures
        r@ == targets(*db, *site),
{
    let named = db.named_nodes(site.target_name.as_str());
    let mut callable: Vec<Node> = Vec::new();
    let ghost cpred = |n: Node| is_callable(n);
    let mut i: usize = 0;
    while i < named.len()
        invariant
            0 <= i <= named@.len(),
            cpred == (|n: Node| is_callable(n)),
            callable@ == named@.take(i as int).filter(cpred),
        decreases named@.len() - i,
    {
        proof {
            assert(named@.take(i + 1).drop_last() =~= named@.take(i as int));
            reveal_with_fuel(Seq::<_>::filter, 1);
        }
        let k = named[i].kind;
        if k == NodeKind::Function || k == NodeKind::Method {
            callable.push(named[i].duplicate());
        }
        i = i + 1;
    }
    proof {
        assert(named@.take(named@.len() as int) =~= named@);
    }
    let mut same: Vec<Node> = Vec::new();
    let ghost spred = |n: Node| in_file(db.file_rows(), n, site.file_id);
    let mut i: usize = 0;
    while i < callable.len()
        invariant
            0 <= i <= callable@.len(),
            db.wf(),
            spred == (|n: Node| in_file(db.file_rows(), n, site.file_id)),
            same@ == callable@.take(i as int).filter(spred),
        decreases callable@.len() - i,
    {
        proof {
            assert(callable@.take(i + 1).drop_last() =~= callable@.take(i as int));
            reveal_with_fuel(Seq::<_>::filter, 1);
        }
        let found = db.file_by_path(callable[i].file.as_str());
        let hit = match &found {
            Some(f) => match f.id {
                Some(id) => id == site.file_id,
                None => false,
            },
            None => false,
        };
        proof {
            let n = callable@[i as int];
            let files = db.file_rows();
            match found {
                Some(f) => {
                    let j = choose|j: int| 0 <= j < files.len() && files[j] == f && f.path@ == n.file@;
                    assert(has_path(files, n.file@));
                    let pj = path_index(files, n.file@);
                    if pj != j {
                        if pj < j {
                            assert(files[pj].id != files[j].id);
                        } else {
                            assert(files[j].id != files[pj].id);
                        }
                    }
                },
                None => {},
            }
            assert(hit == spred(n));
        }
        if hit {
            same.push(callable[i].duplicate());
        }
        i = i + 1;
    }
    proof {
        assert(callable@.take(callable@.len() as int) =~= callable@);
    }
    if same.len() > 0 { same } else { callable }
}

} // verus!

verus! {

proof fn lemma_plan_step(db: Db, sites: Seq<PendingCallRow>, i: int)
    requires
        0 <= i < sites.len(),
    ensures
        plan(db, sites.take(i + 1)) == plan(db, sites.take(i)) + targets(db, sites[i]).map_values(
            |t: Node| (sites[i], t),
        ),
{
    assert(sites.take(i + 1).drop_last() =~= sites.take(i));
    assert(sites.take(i + 1).last() == sites[i]);
}

/// Resolves the call sites against `db` and stores the `calls` relations
/// found; returns how many were stored.
pub fn resolve_calls_in(db: &mut Db, pending: &[PendingCallRow]) -> (r: Result<usize, Error>)
    ensures
        resolved(*old(db), *final(db), pending@, r),
{
    if pending.len() == 0 {
        proof {
            assert(pending@ =~= Seq::<PendingCallRow>::empty());
            assert(db.edge_rows().subrange(0, db.edge_rows().len() as int) =~= db.edge_rows());
        }
        return Ok(0);
    }
    let ghost db0 = *db;
    let mut drafts: Vec<EdgeDraft> = Vec::new();
    let mut i: usize = 0;
    while i < pending.len()
        invariant
            0 <= i <= pending@.len(),
            *db == db0,
            drafts@.len() == plan(db0, pending@.take(i as int)).len(),
            forall|k: int| 0 <= k < drafts@.len() ==> draft_for(#[trigger] drafts@[k], plan(db0, pending@.take(i as int))[k]),
        decreases pending@.len() - i,
    {
        let site = &pending[i];
        let ts = site_targets(db, site);
        let ghost p0 = plan(db0, pending@.take(i as int));
        let ghost d0 = drafts@;
        proof { lemma_plan_step(db0, pending@, i as int); }
        let mut j: usize = 0;
        while j < ts.len()
            invariant
                0 <= j <= ts@.len(),
                ts@ == targets(db0, pending@[i as int]),
                *site == pending@[i as int],
                drafts@.len() == p0.len() + j,
                forall|k: int| 0 <= k < p0.len() ==> #[trigger] drafts@[k] == d0[k],
                forall|k: int| 0 <= k < p0.len() ==> draft_for(#[trigger] d0[k], p0[k]),
                forall|k: int| 0 <= k < j ==> draft_for(#[trigger] drafts@[p0.len() + k], (pending@[i as int], ts@[k])),
            decreases ts@.len() - j,
        {
            let d = EdgeDraft {
                from_id: site.from_id,
                to_id: ts[j].id,
                kind: EdgeKind::Calls,
                file_id: Some(site.file_id),
                line: Some(site.line),
                source: Some(String::from_str("resolver:name-match")),
            };
            proof { reveal_strlit("resolver:name-match"); }
            drafts.push(d);
            j = j + 1;
        }
        proof {
            let p1 = plan(db0, pending@.take(i + 1));
            let ext = targets(db0, pending@[i as int]).map_values(|t: Node| (pending@[i as int], t));
            assert(p1 == p0 + ext);
            assert forall|k: int| 0 <= k < drafts@.len() implies draft_for(#[trigger] drafts@[k], p1[k]) by {
                if k < p0.len() {
                    assert(drafts@[k] == d0[k]);
                    assert(p1[k] == p0[k]);
                } else {
                    let m = k - p0.len();
                    assert(p1[k] == ext[m]);
                    assert(draft_for(drafts@[p0.len() + m], (pending@[i as int], ts@[m])));
                }
            }
        }
        i = i + 1;
    }
    proof {
        assert(pending@.take(pending@.len() as int) =~= pending@);
    }
    let ghost p = plan(db0, pending@);
    let n = drafts.len();
    proof {
        assert(edge_files_known(db0.file_rows(), drafts@) == plan_files_known(db0.file_rows(), p)) by {
            if edge_files_known(db0.file_rows(), drafts@) {
                assert forall|k: int| 0 <= k < p.len() implies has_file_id(db0.file_rows(), (#[trigger] p[k]).0.file_id) by {
                    assert(draft_for(drafts@[k], p[k]));
                    assert(match drafts@[k].file_id { Some(f) => has_file_id(db0.file_rows(), f), None => true });
                }
            }
            if plan_files_known(db0.file_rows(), p) {
                assert forall|k: int| 0 <= k < drafts@.len() implies match (#[trigger] drafts@[k]).file_id {
                    Some(f) => has_file_id(db0.file_rows(), f),
                    None => true,
                } by {
                    assert(draft_for(drafts@[k], p[k]));
                    assert(has_file_id(db0.file_rows(), p[k].0.file_id));
                }
            }
        }
    }
    match db.insert_edges(&drafts) {
        Ok(()) => {
            proof {
                let e0 = db0.edge_rows();
                assert(db.edge_rows().subrange(0, e0.len() as int) =~= e0);
                assert forall|k: int| 0 <= k < n implies row_for(
                    db0.file_rows(), #[trigger] db.edge_rows()[e0.len() + k], p[k]) by {
                    assert(draft_for(drafts@[k], p[k]));
                    assert(db.edge_rows()[e0.len() + k] == crate::db::edge_row_of_draft(
                        drafts@[k], crate::db::edge_file_path(db0.file_rows(), drafts@[k].file_id)));
                }
            }
            Ok(n)
        },
        Err(e) => Err(e),
    }
}

/// Name-matching call resolver over a graph store.
pub struct Resolver<'a> {
    pub db: &'a mut Db,
}

impl<'a> Resolver<'a> {
    pub open spec fn store(&self) -> Db {
        *self.db
    }

    pub fn new(db: &'a mut Db) -> (r: Self)
        ensures
            *r.db == *old(db),
            r.store() == *old(db),
            *final(db) == *final(r.db),
    {
        Self { db }
    }

    /// Links each call site to the callable symbols named like its target:
    /// those in the caller's file when there are any, else all of them.
    /// Stores the links as `calls` relations and returns their number.
    pub fn resolve_calls(self, pending: &[PendingCallRow]) -> (r: Result<usize, Error>)
        ensures
            resolved(*old(self.db), *final(self.db), pending@, r),
    {
        resolve_calls_in(self.db, pending)
    }
}

/// The (call site, target) pairs of one call site.
pub open spec fn site_pairs(db: Db, site: PendingCallRow) -> Seq<(PendingCallRow, Node)> {
    targets(db, site).map_values(|t: Node| (site, t))
}

/// Leaving one call site out of the list leaves its pairs out of the plan.
proof fn lemma_plan_remove(db: Db, sites: Seq<PendingCallRow>, j: int)
    requires
        0 <= j < sites.len(),
    ensures
        plan(db, sites).to_multiset() == plan(db, sites.remove(j)).to_multiset().add(
            site_pairs(db, sites[j]).to_multiset(),
        ),
    decreases sites.len(),
{
    broadcast use vstd::seq_lib::lemma_multiset_commutative;
    broadcast use vstd::multiset::group_multiset_axioms;

    let last = sites.last();
    let init = sites.drop_last();
    if j == sites.len() - 1 {
        assert(sites.remove(j) =~= init);
    } else {
        lemma_plan_remove(db, init, j);
        let rest = sites.remove(j);
        assert(rest.drop_last() =~= init.remove(j));
        assert(rest.last() == last);
        assert(init[j] == sites[j]);
        let a = plan(db, init.remove(j)).to_multiset();
        let b = site_pairs(db, sites[j]).to_multiset();
        let c = site_pairs(db, last).to_multiset();
        assert(plan(db, sites).to_multiset() == a.add(b).add(c));
        assert(plan(db, rest).to_multiset() == a.add(c));
        assert(a.add(b).add(c) =~= a.add(c).add(b));
    }
}

/// On one store, call sites that are a reordering of each other plan the
/// same (call site, target) pairs, as many times each.
proof fn lemma_plan_order_free(db: Db, a: Seq<PendingCallRow>, b: Seq<PendingCallRow>)
    requires
        a.to_multiset() == b.to_multiset(),
    ensures
        plan(db, a).to_multiset() == plan(db, b).to_multiset(),
    decreases a.len(),
{
    broadcast use vstd::seq_lib::group_to_multiset_ensures;
    broadcast use vstd::multiset::group_multiset_axioms;

    if a.len() == 0 {
        assert(b.to_multiset().len() == 0);
        assert(b.len() == 0);
        assert(b =~= Seq::<PendingCallRow>::empty());
        assert(a =~= Seq::<PendingCallRow>::empty());
    } else {
        let x = a.last();
        assert(a.contains(x)) by {
            assert(a[a.len() - 1] == x);
        }
        assert(b.to_multiset().count(x) > 0);
        assert(b.contains(x));
        let j = choose|j: int| 0 <= j < b.len() && b[j] == x;
        let a1 = a.remove(a.len() - 1);
        let b1 = b.remove(j);
        assert(a1 =~= a.drop_last());
        assert(a1.to_multiset() == a.to_multiset().remove(x));
        assert(b1.to_multiset() == b.to_multiset().remove(x));
        lemma_plan_order_free(db, a1, b1);
        lemma_plan_remove(db, a, a.len() - 1);
        lemma_plan_remove(db, b, j);
    }
}

/// Whether every call site of `p` names a stored file depends only on which
/// pairs `p` holds.
proof fn lemma_files_known_order_free(files: Seq<FileRow>, p: Seq<(PendingCallRow, Node)>, q: Seq<(PendingCallRow, Node)>)
    requires
        p.to_multiset() == q.to_multiset(),
        plan_files_known(files, q),
    ensures
        plan_files_known(files, p),
{
    broadcast use vstd::seq_lib::group_to_multiset_ensures;

    assert forall|k: int| 0 <= k < p.len() implies has_file_id(files, (#[trigger] p[k]).0.file_id) by {
        assert(p.contains(p[k]));
        assert(p.to_multiset().count(p[k]) > 0);
        assert(q.contains(p[k]));
        let i = choose|i: int| 0 <= i < q.len() && q[i] == p[k];
        assert(has_file_id(files, q[i].0.file_id));
    }
}

/// Sequences holding the same elements, mapped by one function, still hold
/// the same elements.
proof fn lemma_map_same_elements<A, B>(a: Seq<A>, b: Seq<A>, f: spec_fn(A) -> B)
    requires
        a.to_multiset() == b.to_multiset(),
    ensures
        a.map_values(f).to_multiset() == b.map_values(f).to_multiset(),
    decreases a.len(),
{
    broadcast use vstd::seq_lib::group_to_multiset_ensures;
    broadcast use vstd::multiset::group_multiset_axioms;

    if a.len() == 0 {
        assert(b.to_multiset().len() == 0);
        assert(b.len() == 0);
        assert(a.map_values(f) =~= Seq::<B>::empty());
        assert(b.map_values(f) =~= Seq::<B>::empty());
    } else {
        let x = a.last();
        assert(a.contains(x)) by {
            assert(a[a.len() - 1] == x);
        }
        assert(b.to_multiset().count(x) > 0);
        assert(b.contains(x));
        let j = choose|j: int| 0 <= j < b.len() && b[j] == x;
        let a1 = a.remove(a.len() - 1);
        let b1 = b.remove(j);
        assert(a1.to_multiset() == a.to_multiset().remove(x));
        assert(b1.to_multiset() == b.to_multiset().remove(x));
        lemma_map_same_elements(a1, b1, f);
        let fa = a.map_values(f);
        let fb = b.map_values(f);
        assert(fa.remove(a.len() - 1) =~= a1.map_values(f));
        assert(fb.remove(j) =~= b1.map_values(f));
        assert(fa.remove(a.len() - 1).to_multiset() == fa.to_multiset().remove(f(x)));
        assert(fb.remove(j).to_multiset() == fb.to_multiset().remove(f(x)));
        assert(fa.contains(f(x))) by {
            assert(fa[a.len() - 1] == f(x));
        }
        assert(fb.contains(f(x))) by {
            assert(fb[j] == f(x));
        }
        assert(fa.to_multiset().count(f(x)) > 0);
        assert(fb.to_multiset().count(f(x)) > 0);
        assert(fa.to_multiset() =~= fa.to_multiset().remove(f(x)).insert(f(x)));
        assert(fb.to_multiset() =~= fb.to_multiset().remove(f(x)).insert(f(x)));
    }
}

/// The relation and file id stored for a (call site, target) pair.
pub open spec fn pair_row(files: Seq<FileRow>, p: (PendingCallRow, Node)) -> (Edge, Option<i64>) {
    (
        Edge {
            from: p.0.from_id,
            to: p.1.id,
            kind: EdgeKind::Calls,
            file: Some(files[file_id_index(files, p.0.file_id)].path),
            line: Some(p.0.line),
        },
        Some(p.0.file_id),
    )
}

/// The relations, with their file ids, that `db1` holds beyond those of
/// `db0`.
pub open spec fn new_rows(db0: Db, db1: Db) -> Seq<(Edge, Option<i64>)> {
    db1.edge_rows().subrange(db0.edge_rows().len() as int, db1.edge_rows().len() as int).map_values(
        |r: EdgeRow| (r.edge, r.file_id),
    )
}

proof fn lemma_new_rows(db0: Db, db1: Db, pending: Seq<PendingCallRow>, n: usize)
    requires
        resolved(db0, db1, pending, Ok(n)),
    ensures
        new_rows(db0, db1) == plan(db0, pending).map_values(|p: (PendingCallRow, Node)| pair_row(db0.file_rows(), p)),
{
    let p = plan(db0, pending);
    let m = db0.edge_rows().len() as int;
    assert forall|k: int| 0 <= k < n implies #[trigger] new_rows(db0, db1)[k] == pair_row(db0.file_rows(), p[k]) by {
        assert(row_for(db0.file_rows(), db1.edge_rows()[m + k], p[k]));
        assert(new_rows(db0, db1)[k] == (db1.edge_rows()[m + k].edge, db1.edge_rows()[m + k].file_id));
    }
    assert(new_rows(db0, db1) =~= p.map_values(|q: (PendingCallRow, Node)| pair_row(db0.file_rows(), q)));
}

/// Resolution does not depend on the order of the call sites: on one store,
/// call sites in any order either both fail or both succeed with the same
/// count, and the relations stored are those of the same (call site,
/// target) pairs, as many times each: the same new relations with the same
/// file ids, in some order.
pub proof fn lemma_resolution_order_free(
    db0: Db,
    a: Seq<PendingCallRow>,
    b: Seq<PendingCallRow>,
    db_a: Db,
    db_b: Db,
    ra: Result<usize, Error>,
    rb: Result<usize, Error>,
)
    requires
        a.to_multiset() == b.to_multiset(),
        resolved(db0, db_a, a, ra),
        resolved(db0, db_b, b, rb),
    ensures
        ra is Ok <==> rb is Ok,
        ra is Ok ==> ra->Ok_0 == rb->Ok_0,
        plan(db0, a).to_multiset() == plan(db0, b).to_multiset(),
        ra is Ok ==> new_rows(db0, db_a).to_multiset() == new_rows(db0, db_b).to_multiset(),
        ra is Err ==> db_a.edge_rows() == db0.edge_rows() && db_b.edge_rows() == db0.edge_rows(),
{
    broadcast use vstd::seq_lib::group_to_multiset_ensures;

    lemma_plan_order_free(db0, a, b);
    let pa = plan(db0, a);
    let pb = plan(db0, b);
    assert(pa.len() == pa.to_multiset().len());
    assert(pb.len() == pb.to_multiset().len());
    if plan_files_known(db0.file_rows(), pb) {
        lemma_files_known_order_free(db0.file_rows(), pa, pb);
    }
    if plan_files_known(db0.file_rows(), pa) {
        lemma_files_known_order_free(db0.file_rows(), pb, pa);
    }
    if ra is Ok {
        lemma_new_rows(db0, db_a, a, ra->Ok_0);
        lemma_new_rows(db0, db_b, b, rb->Ok_0);
        lemma_map_same_elements(pa, pb, |q: (PendingCallRow, Node)| pair_row(db0.file_rows(), q));
    }
}

/// Every (call site, target) pair of a site is in the plan.
proof fn lemma_plan_holds_site(db: Db, sites: Seq<PendingCallRow>, s: int, t: Node)
    requires
        0 <= s < sites.len(),
        targets(db, sites[s]).contains(t),
    ensures
        plan(db, sites).contains((sites[s], t)),
    decreases sites.len(),
{
    let init = sites.drop_last();
    let last = sites.last();
    let tail = targets(db, last).map_values(|x: Node| (last, x));
    assert(plan(db, sites) == plan(db, init) + tail);
    if s == sites.len() - 1 {
        let k = choose|k: int| 0 <= k < targets(db, last).len() && targets(db, last)[k] == t;
        assert(tail[k] == (last, t));
        assert((plan(db, init) + tail)[plan(db, init).len() + k] == (sites[s], t));
    } else {
        assert(init[s] == sites[s]);
        lemma_plan_holds_site(db, init, s, t);
        let k = choose|k: int| 0 <= k < plan(db, init).len() && plan(db, init)[k] == (sites[s], t);
        assert((plan(db, init) + tail)[k] == (sites[s], t));
    }
}

/// Whether `n` is a function or a method named `name`.
pub open spec fn callable_named(n: Node, name: Seq<char>) -> bool {
    &&& n.name@ == name
    &&& (n.kind == NodeKind::Function || n.kind == NodeKind::Method)
}

/// A call whose target has no function or method of its name in the
/// caller's file is linked to every stored function or method of that name,
/// wherever it lies: a `calls` relation from the caller to each of them is
/// stored.
pub proof fn lemma_call_links_every_named_callable(
    db0: Db,
    db1: Db,
    pending: Seq<PendingCallRow>,
    n: usize,
    s: int,
    t: Node,
)
    requires
        resolved(db0, db1, pending, Ok(n)),
        0 <= s < pending.len(),
        db0.node_seq().contains(t),
        callable_named(t, pending[s].target_name@),
        forall|m: Node| #[trigger] db0.node_seq().contains(m) && callable_named(m, pending[s].target_name@)
            ==> !in_file(db0.file_rows(), m, pending[s].file_id),
    ensures
        exists|k: int| 0 <= k < n && {
            let e = (#[trigger] db1.edge_rows()[db0.edge_rows().len() + k]).edge;
            &&& e.from == pending[s].from_id
            &&& e.to == t.id
            &&& e.kind == EdgeKind::Calls
        },
{
    broadcast use vstd::seq_lib::group_filter_ensures;

    let site = pending[s];
    let named = db0.node_seq().filter(|n: Node| n.name@ == site.target_name@);
    let c = candidates(db0, site);
    let same = c.filter(|n: Node| in_file(db0.file_rows(), n, site.file_id));
    assert(named.contains(t));
    assert(c.contains(t));
    if same.len() > 0 {
        let m = same[0];
        assert(same.contains(m));
        c.lemma_filter_contains_rev(|n: Node| in_file(db0.file_rows(), n, site.file_id), m);
        assert(c.contains(m));
        named.lemma_filter_contains_rev(|n: Node| is_callable(n), m);
        assert(named.contains(m));
        db0.node_seq().lemma_filter_contains_rev(|n: Node| n.name@ == site.target_name@, m);
        assert(db0.node_seq().contains(m));
        assert(callable_named(m, site.target_name@));
        assert(false);
    }
    assert(targets(db0, site) == c);
    lemma_plan_holds_site(db0, pending, s, t);
    let p = plan(db0, pending);
    let k = choose|k: int| 0 <= k < p.len() && p[k] == (site, t);
    assert(row_for(db0.file_rows(), db1.edge_rows()[db0.edge_rows().len() + k], p[k]));
}

/// A call whose target has functions or methods of its name in the
/// caller's file is linked to each of them: a `calls` relation from the
/// caller to every one is stored.
pub proof fn lemma_call_links_same_file_callables(
    db0: Db,
    db1: Db,
    pending: Seq<PendingCallRow>,
    n: usize,
    s: int,
    t: Node,
)
    requires
        resolved(db0, db1, pending, Ok(n)),
        0 <= s < pending.len(),
        db0.node_seq().contains(t),
        callable_named(t, pending[s].target_name@),
        in_file(db0.file_rows(), t, pending[s].file_id),
    ensures
        exists|k: int| 0 <= k < n && {
            let e = (#[trigger] db1.edge_rows()[db0.edge_rows().len() + k]).edge;
            &&& e.from == pending[s].from_id
            &&& e.to == t.id
            &&& e.kind == EdgeKind::Calls
        },
{
    broadcast use vstd::seq_lib::group_filter_ensures;

    let site = pending[s];
    let named = db0.node_seq().filter(|n: Node| n.name@ == site.target_name@);
    let c = candidates(db0, site);
    let same = c.filter(|n: Node| in_file(db0.file_rows(), n, site.file_id));
    assert(named.contains(t));
    assert(c.contains(t));
    assert(same.contains(t));
    assert(targets(db0, site) == same);
    lemma_plan_holds_site(db0, pending, s, t);
    let p = plan(db0, pending);
    let k = choose|k: int| 0 <= k < p.len() && p[k] == (site, t);
    assert(row_for(db0.file_rows(), db1.edge_rows()[db0.edge_rows().len() + k], p[k]));
}

} // verus!
