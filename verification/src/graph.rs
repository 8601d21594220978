//! Graph traversal: callers, callees, impact radius.

use crate::db::{edge_selected, Db};
use crate::error::Error;
use crate::kinds::{EdgeKind, NodeKind};
use crate::model::{Edge, Node, NodeId};
use crate::text::{push_decimal_i64, push_str};
use std::collections::{HashSet, VecDeque};
use vstd::prelude::*;

verus! {

/// Bound on the number of visited symbols, past which a traversal stops.
pub const HARD_LIMIT: usize = 5000;

/// The end of a selected relation that a traversal moves to.
pub open spec fn far_end(e: Edge, forward: bool) -> NodeId {
    if forward { e.to } else { e.from }
}

/// The end of a selected relation that a traversal moves from.
pub open spec fn near_end(e: Edge, forward: bool) -> NodeId {
    if forward { e.from } else { e.to }
}

/// One traversal step from `u` to `v` along a stored relation.
pub open spec fn step(edges: Seq<Edge>, kinds: Seq<EdgeKind>, forward: bool, u: NodeId, v: NodeId) -> bool {
    exists|i: int| 0 <= i < edges.len() && #[trigger] edge_selected(edges[i], u, kinds, forward)
        && far_end(edges[i], forward) == v
}

/// Whether `p` is a walk: consecutive entries are joined by a step.
pub open spec fn is_walk(edges: Seq<Edge>, kinds: Seq<EdgeKind>, forward: bool, p: Seq<NodeId>) -> bool {
    &&& p.len() >= 1
    &&& forall|i: int| 0 <= i < p.len() - 1 ==> #[trigger] step(edges, kinds, forward, p[i], p[i + 1])
}

/// Whether `v` can be reached from `start` in at most `k` steps.
pub open spec fn reach_le(
    edges: Seq<Edge>,
    kinds: Seq<EdgeKind>,
    forward: bool,
    start: NodeId,
    v: NodeId,
    k: int,
) -> bool {
    exists|p: Seq<NodeId>| #[trigger] is_walk(edges, kinds, forward, p) && p[0] == start
        && p[p.len() - 1] == v && p.len() <= k + 1
}

/// Zero steps reach exactly the start.
pub proof fn lemma_reach_zero(
    edges: Seq<Edge>,
    kinds: Seq<EdgeKind>,
    forward: bool,
    start: NodeId,
    v: NodeId,
)
    ensures
        reach_le(edges, kinds, forward, start, v, 0) <==> v == start,
{
    if v == start {
        let p = seq![start];
        assert(is_walk(edges, kinds, forward, p));
    }
}

/// A step extends a walk.
pub proof fn lemma_reach_step(
    edges: Seq<Edge>,
    kinds: Seq<EdgeKind>,
    forward: bool,
    start: NodeId,
    u: NodeId,
    v: NodeId,
    k: int,
)
    requires
        reach_le(edges, kinds, forward, start, u, k),
        step(edges, kinds, forward, u, v),
    ensures
        reach_le(edges, kinds, forward, start, v, k + 1),
{
    let p = choose|p: Seq<NodeId>| #[trigger] is_walk(edges, kinds, forward, p) && p[0] == start
        && p[p.len() - 1] == u && p.len() <= k + 1;
    let q = p.push(v);
    assert forall|i: int| 0 <= i < q.len() - 1 implies #[trigger] step(edges, kinds, forward, q[i], q[i + 1]) by {
        if i < p.len() - 1 {
            assert(q[i] == p[i] && q[i + 1] == p[i + 1]);
            assert(step(edges, kinds, forward, p[i], p[i + 1]));
        }
    }
    assert(is_walk(edges, kinds, forward, q));
}

/// A walk of at most `k > 0` steps is shorter, or ends with a step from a
/// node within `k - 1` steps.
pub proof fn lemma_reach_split(
    edges: Seq<Edge>,
    kinds: Seq<EdgeKind>,
    forward: bool,
    start: NodeId,
    w: NodeId,
    k: int,
) -> (u: NodeId)
    requires
        k > 0,
        reach_le(edges, kinds, forward, start, w, k),
        !reach_le(edges, kinds, forward, start, w, k - 1),
    ensures
        reach_le(edges, kinds, forward, start, u, k - 1),
        step(edges, kinds, forward, u, w),
{
    let p = choose|p: Seq<NodeId>| #[trigger] is_walk(edges, kinds, forward, p) && p[0] == start
        && p[p.len() - 1] == w && p.len() <= k + 1;
    if p.len() == 1 {
        assert(is_walk(edges, kinds, forward, p) && p[0] == start && p[p.len() - 1] == w && p.len() <= k);
        assert(false);
    }
    let q = p.drop_last();
    assert forall|i: int| 0 <= i < q.len() - 1 implies #[trigger] step(edges, kinds, forward, q[i], q[i + 1]) by {
        assert(q[i] == p[i] && q[i + 1] == p[i + 1]);
        assert(step(edges, kinds, forward, p[i], p[i + 1]));
    }
    assert(is_walk(edges, kinds, forward, q));
    assert(step(edges, kinds, forward, p[p.len() - 2], p[p.len() - 2 + 1]));
    p[p.len() - 2]
}

/// Whether the fewest steps from `start` to `v` is exactly `d`.
pub open spec fn dist_is(
    edges: Seq<Edge>,
    kinds: Seq<EdgeKind>,
    forward: bool,
    start: NodeId,
    v: NodeId,
    d: int,
) -> bool {
    &&& reach_le(edges, kinds, forward, start, v, d)
    &&& !reach_le(edges, kinds, forward, start, v, d - 1)
}

/// Reachability within `a` steps implies reachability within `b >= a` steps.
pub proof fn lemma_reach_mono(
    edges: Seq<Edge>,
    kinds: Seq<EdgeKind>,
    forward: bool,
    start: NodeId,
    v: NodeId,
    a: int,
    b: int,
)
    requires
        a <= b,
        reach_le(edges, kinds, forward, start, v, a),
    ensures
        reach_le(edges, kinds, forward, start, v, b),
{
    let p = choose|p: Seq<NodeId>| #[trigger] is_walk(edges, kinds, forward, p) && p[0] == start
        && p[p.len() - 1] == v && p.len() <= a + 1;
    assert(p.len() <= b + 1);
}

/// Whether some queued entry holds node `u`.
pub open spec fn in_queue(q: Seq<(NodeId, u32)>, u: NodeId) -> bool {
    exists|i: int| 0 <= i < q.len() && (#[trigger] q[i]).0 == u
}

/// Whether every expanded node (visited, no longer queued, other than
/// `excl`, within `max_depth - 1` steps) has all its successors visited.
pub open spec fn closed_except(
    edges: Seq<Edge>,
    kinds: Seq<EdgeKind>,
    forward: bool,
    start: NodeId,
    visited: Set<NodeId>,
    q: Seq<(NodeId, u32)>,
    excl: Option<NodeId>,
    max_depth: int,
) -> bool {
    forall|u: NodeId, v: NodeId|
        #![trigger visited.contains(u), step(edges, kinds, forward, u, v)]
        visited.contains(u) && !in_queue(q, u) && excl != Some(u)
            && reach_le(edges, kinds, forward, start, u, max_depth - 1)
            && step(edges, kinds, forward, u, v) ==> visited.contains(v)
}

/// Breadth-first order: every node within `k <= b` steps is visited, when
/// every queued entry sits at distance at least `b`.
proof fn lemma_reached_visited(
    edges: Seq<Edge>,
    kinds: Seq<EdgeKind>,
    forward: bool,
    start: NodeId,
    visited: Set<NodeId>,
    q: Seq<(NodeId, u32)>,
    excl: Option<NodeId>,
    b: int,
    max_depth: int,
    k: int,
    w: NodeId,
)
    requires
        0 <= k <= b <= max_depth,
        visited.contains(start),
        forall|i: int| 0 <= i < q.len() ==> b <= (#[trigger] q[i]).1
            && dist_is(edges, kinds, forward, start, q[i].0, q[i].1 as int),
        excl matches Some(c) ==> !reach_le(edges, kinds, forward, start, c, b - 1),
        closed_except(edges, kinds, forward, start, visited, q, excl, max_depth),
        reach_le(edges, kinds, forward, start, w, k),
    ensures
        visited.contains(w),
    decreases k,
{
    if k == 0 {
        lemma_reach_zero(edges, kinds, forward, start, w);
    } else if reach_le(edges, kinds, forward, start, w, k - 1) {
        lemma_reached_visited(edges, kinds, forward, start, visited, q, excl, b, max_depth, k - 1, w);
    } else {
        let u = lemma_reach_split(edges, kinds, forward, start, w, k);
        lemma_reached_visited(edges, kinds, forward, start, visited, q, excl, b, max_depth, k - 1, u);
        if in_queue(q, u) {
            let i = choose|i: int| 0 <= i < q.len() && (#[trigger] q[i]).0 == u;
            lemma_reach_mono(edges, kinds, forward, start, u, k - 1, q[i].1 - 1);
        }
        if excl == Some(u) {
            lemma_reach_mono(edges, kinds, forward, start, u, k - 1, b - 1);
        }
        lemma_reach_mono(edges, kinds, forward, start, u, k - 1, max_depth - 1);
    }
}

} // verus!

verus! {

/// Whether stored relation `e` leaves (or enters) a node within
/// `max_depth - 1` steps, so that a traversal to `max_depth` crosses it.
pub open spec fn edge_reached(
    edges: Seq<Edge>,
    kinds: Seq<EdgeKind>,
    forward: bool,
    start: NodeId,
    max_depth: int,
    e: Edge,
) -> bool {
    &&& edges.contains(e)
    &&& kinds.contains(e.kind)
    &&& reach_le(edges, kinds, forward, start, near_end(e, forward), max_depth - 1)
}

/// Result of a breadth-first traversal.
#[derive(Debug)]
pub struct TraverseHits {
    /// Symbols reached, in the order found.
    pub nodes: Vec<Node>,
    /// `depths[i]` is the number of steps to `nodes[i]`.
    pub depths: Vec<u32>,
    /// Relations crossed.
    pub edges: Vec<Edge>,
    /// Whether the traversal stopped at the visit bound.
    pub truncated: bool,
}

/// What holds of every traversal result: reached symbols are stored,
/// distinct, other than the start, found in order of their exact distance,
/// and at most `HARD_LIMIT` of them; crossed relations are stored, leave a
/// node within `max_depth - 1`, and join the start or reported symbols
/// (where a stored symbol has the id).
pub open spec fn hits_sound(
    nodes: Seq<Node>,
    edges: Seq<Edge>,
    kinds: Seq<EdgeKind>,
    forward: bool,
    start: NodeId,
    max_depth: int,
    h: TraverseHits,
) -> bool {
    &&& h.nodes@.len() == h.depths@.len()
    &&& forall|i: int| 0 <= i < h.nodes@.len() ==> {
        &&& nodes.contains(#[trigger] h.nodes@[i])
        &&& h.nodes@[i].id != start
        &&& 1 <= h.depths@[i] <= max_depth
        &&& dist_is(edges, kinds, forward, start, h.nodes@[i].id, h.depths@[i] as int)
    }
    &&& forall|i: int, j: int| 0 <= i < j < h.nodes@.len() ==>
        #[trigger] h.nodes@[i].id != #[trigger] h.nodes@[j].id
    &&& forall|i: int, j: int| 0 <= i < j < h.depths@.len() ==>
        #[trigger] h.depths@[i] <= #[trigger] h.depths@[j]
    &&& forall|k: int| 0 <= k < h.edges@.len() ==>
        edge_reached(edges, kinds, forward, start, max_depth, #[trigger] h.edges@[k])
    &&& forall|k: int| 0 <= k < h.edges@.len() ==> {
        &&& id_reported(nodes, start, h.nodes@, near_end(#[trigger] h.edges@[k], forward))
        &&& id_reported(nodes, start, h.nodes@, far_end(h.edges@[k], forward))
    }
    &&& h.nodes@.len() <= HARD_LIMIT
}

/// Whether id `v` is the start or, where a stored symbol has it, among the
/// reported symbols.
pub open spec fn id_reported(nodes: Seq<Node>, start: NodeId, reported: Seq<Node>, v: NodeId) -> bool {
    ||| v == start
    ||| (exists|n: Node| #[trigger] nodes.contains(n) && n.id == v) ==> exists|i: int|
        0 <= i < reported.len() && #[trigger] reported[i].id == v
}

/// Whether more than `n` ids lie within `max_depth` steps of `start`
/// (the start included).
pub open spec fn reach_exceeds(
    edges: Seq<Edge>,
    kinds: Seq<EdgeKind>,
    forward: bool,
    start: NodeId,
    max_depth: int,
    n: int,
) -> bool {
    exists|s: Set<NodeId>| s.finite() && s.len() > n
        && forall|v: NodeId| #[trigger] s.contains(v) ==> reach_le(edges, kinds, forward, start, v, max_depth)
}

/// What holds of an untruncated traversal: every stored symbol within
/// `max_depth` steps (other than the start) is reached, and every relation
/// leaving a node within `max_depth - 1` steps is crossed.
pub open spec fn hits_complete(
    nodes: Seq<Node>,
    edges: Seq<Edge>,
    kinds: Seq<EdgeKind>,
    forward: bool,
    start: NodeId,
    max_depth: int,
    h: TraverseHits,
) -> bool {
    &&& forall|n: Node| #[trigger] nodes.contains(n) && n.id != start
        && reach_le(edges, kinds, forward, start, n.id, max_depth) ==> h.nodes@.contains(n)
    &&& forall|e: Edge| #[trigger] edge_reached(edges, kinds, forward, start, max_depth, e)
        ==> h.edges@.contains(e)
}

/// The exact meaning of a traversal result: it is truncated exactly when
/// more ids than the start and `HARD_LIMIT` others lie within `max_depth`
/// steps, and complete when it is not.
pub open spec fn hits_spec(
    nodes: Seq<Node>,
    edges: Seq<Edge>,
    kinds: Seq<EdgeKind>,
    forward: bool,
    start: NodeId,
    max_depth: int,
    h: TraverseHits,
) -> bool {
    &&& hits_sound(nodes, edges, kinds, forward, start, max_depth, h)
    &&& h.truncated == reach_exceeds(edges, kinds, forward, start, max_depth, HARD_LIMIT + 1)
    &&& !h.truncated ==> hits_complete(nodes, edges, kinds, forward, start, max_depth, h)
}

/// Traversals over a graph store.
pub struct Traversal<'a> {
    db: &'a Db,
}

impl<'a> Traversal<'a> {
    pub closed spec fn store(&self) -> &'a Db {
        self.db
    }

    pub fn new(db: &'a Db) -> (t: Self)
        ensures
            t.store() == db,
    {
        Self { db }
    }
}

} // verus!

verus! {

/// Ids at either end of a stored relation, and the start.
pub open spec fn id_universe(edges: Seq<Edge>, start: NodeId) -> Set<NodeId> {
    edges.map_values(|e: Edge| e.from).to_set().union(edges.map_values(|e: Edge| e.to).to_set()).insert(start)
}

proof fn lemma_universe(edges: Seq<Edge>, start: NodeId, i: int)
    requires
        0 <= i < edges.len(),
    ensures
        id_universe(edges, start).contains(edges[i].from),
        id_universe(edges, start).contains(edges[i].to),
        id_universe(edges, start).finite(),
{
    broadcast use vstd::seq_lib::seq_to_set_is_finite;
    assert(edges.map_values(|e: Edge| e.from)[i] == edges[i].from);
    assert(edges.map_values(|e: Edge| e.to)[i] == edges[i].to);
    assert(edges.map_values(|e: Edge| e.from).to_set().contains(edges[i].from));
    assert(edges.map_values(|e: Edge| e.to).to_set().contains(edges[i].to));
}

proof fn lemma_universe_finite(edges: Seq<Edge>, start: NodeId)
    ensures
        id_universe(edges, start).finite(),
        id_universe(edges, start).contains(start),
{
    broadcast use vstd::seq_lib::seq_to_set_is_finite;
}

impl<'a> Traversal<'a> {
    /// Breadth-first traversal from `start` along relations of `kinds`,
    /// leaving nodes (`forward`) or entering them, to at most `max_depth`
    /// steps. Stops, truncated, when one more symbol would take the visited
    /// ids past `HARD_LIMIT + 1` (the start and `HARD_LIMIT` others).
    #[verifier::rlimit(60)]
    fn traverse(&self, start: NodeId, max_depth: u32, kinds: &[EdgeKind], forward: bool) -> (r: Result<TraverseHits, Error>)
        ensures
            r matches Ok(h) && hits_spec(
                self.store().node_seq(), self.store().edge_seq(), kinds@, forward, start, max_depth as int, h,
            ),
    {
        broadcast use vstd::std_specs::hash::group_hash_axioms;
        broadcast use vstd::set_lib::lemma_set_subset_finite;
        let db = self.db;
        let _ = db.node_count();
        let ghost ed = db.edge_seq();
        let ghost ns = db.node_seq();
        let ghost ks = kinds@;
        let ghost md = max_depth as int;
        let ghost uni = id_universe(ed, start);
        proof {
            lemma_universe_finite(ed, start);
            lemma_reach_zero(ed, ks, forward, start, start);
            lemma_reach_mono(ed, ks, forward, start, start, 0, md);
        }

        let mut visited: HashSet<NodeId> = HashSet::new();
        let mut queue: VecDeque<(NodeId, u32)> = VecDeque::new();
        let mut nodes: Vec<Node> = Vec::new();
        let mut depths: Vec<u32> = Vec::new();
        let mut edges: Vec<Edge> = Vec::new();
        let mut truncated = false;
        visited.insert(start);
        queue.push_back((start, 0));
        let ghost mut level: int = 0;
        proof {
            lemma_len_subset_of(visited@, uni);
            assert(queue@[0].0 == start);
            assert(in_queue(queue@, start));
            assert forall|u: NodeId| #[trigger] visited@.contains(u) implies in_queue(queue@, u) by {
                assert(u == start);
            }
        }

        loop
            invariant_except_break
                closed_except(ed, ks, forward, start, visited@, queue@, None, md),
                forall|i: int, u: NodeId| #![trigger ed[i], visited@.contains(u)]
                    0 <= i < ed.len() && visited@.contains(u) && !in_queue(queue@, u)
                    && reach_le(ed, ks, forward, start, u, md - 1) && edge_selected(ed[i], u, ks, forward)
                    ==> edges@.contains(ed[i]),
                !truncated,
            invariant
                db.wf(),
                ed == db.edge_seq(),
                ns == db.node_seq(),
                ks == kinds@,
                md == max_depth as int,
                uni == id_universe(ed, start),
                uni.finite(),
                visited@.subset_of(uni),
                visited@.finite(),
                visited@.contains(start),
                in_queue(queue@, start) ==> visited@.len() == 1,
                0 <= level <= md,
                forall|i: int| 0 <= i < queue@.len() ==> {
                    &&& visited@.contains((#[trigger] queue@[i]).0)
                    &&& dist_is(ed, ks, forward, start, queue@[i].0, queue@[i].1 as int)
                    &&& queue@[i].1 <= md
                    &&& level <= queue@[i].1
                },
                forall|i: int, j: int| 0 <= i < j < queue@.len() ==> {
                    &&& (#[trigger] queue@[i]).1 <= (#[trigger] queue@[j]).1
                    &&& queue@[j].1 <= queue@[i].1 + 1
                    &&& queue@[i].0 != queue@[j].0
                },
                forall|v: NodeId| #[trigger] visited@.contains(v) ==> reach_le(ed, ks, forward, start, v, md),
                visited@.len() <= HARD_LIMIT + 1,
                nodes@.len() + 1 <= visited@.len(),
                forall|j: int| 0 <= j < edges@.len() ==> visited@.contains(near_end(#[trigger] edges@[j], forward))
                    && visited@.contains(far_end(edges@[j], forward)),
                nodes@.len() == depths@.len(),
                forall|i: int| 0 <= i < nodes@.len() ==> {
                    &&& ns.contains(#[trigger] nodes@[i])
                    &&& nodes@[i].id != start
                    &&& visited@.contains(nodes@[i].id)
                    &&& 1 <= depths@[i] <= md
                    &&& depths@[i] <= level + 1
                    &&& dist_is(ed, ks, forward, start, nodes@[i].id, depths@[i] as int)
                },
                forall|i: int, j: int| 0 <= i < j < nodes@.len() ==>
                    #[trigger] nodes@[i].id != #[trigger] nodes@[j].id,
                forall|i: int, j: int| 0 <= i < j < depths@.len() ==>
                    #[trigger] depths@[i] <= #[trigger] depths@[j],
                forall|v: NodeId| #[trigger] visited@.contains(v) && v != start && db.has_node(v)
                    ==> exists|i: int| 0 <= i < nodes@.len() && #[trigger] nodes@[i].id == v,
                forall|k: int| 0 <= k < edges@.len() ==>
                    edge_reached(ed, ks, forward, start, md, #[trigger] edges@[k]),
            ensures
                truncated ==> visited@.len() > HARD_LIMIT
                    && exists|x: NodeId| !visited@.contains(x) && reach_le(ed, ks, forward, start, x, md),
                !truncated ==> {
                    &&& queue@.len() == 0
                    &&& closed_except(ed, ks, forward, start, visited@, queue@, None, md)
                    &&& forall|i: int, u: NodeId| #![trigger ed[i], visited@.contains(u)]
                        0 <= i < ed.len() && visited@.contains(u) && !in_queue(queue@, u)
                        && reach_le(ed, ks, forward, start, u, md - 1) && edge_selected(ed[i], u, ks, forward)
                        ==> edges@.contains(ed[i])
                },
            decreases 2 * (uni.len() - visited@.len()) + queue@.len(),
        {
            proof { lemma_len_subset_of(visited@, uni); }
            let ghost q0 = queue@;
            let ghost measure0 = 2 * (uni.len() - visited@.len()) + queue@.len();
            let popped = queue.pop_front();
            let (cur, d) = match popped {
                None => { break; },
                Some(p) => p,
            };
            proof {
                assert(queue@ =~= q0.subrange(1, q0.len() as int));
                assert(q0[0] == (cur, d));
                assert(forall|u: NodeId| u != cur ==> (in_queue(queue@, u) <==> in_queue(q0, u))) by {
                    assert forall|u: NodeId| u != cur implies (in_queue(queue@, u) <==> in_queue(q0, u)) by {
                        if in_queue(q0, u) {
                            let i = choose|i: int| 0 <= i < q0.len() && (#[trigger] q0[i]).0 == u;
                            assert(queue@[i - 1] == q0[i]);
                        }
                        if in_queue(queue@, u) {
                            let i = choose|i: int| 0 <= i < queue@.len() && (#[trigger] queue@[i]).0 == u;
                            assert(queue@[i] == q0[i + 1]);
                        }
                    }
                }
                assert(!in_queue(queue@, cur)) by {
                    if in_queue(queue@, cur) {
                        let i = choose|i: int| 0 <= i < queue@.len() && (#[trigger] queue@[i]).0 == cur;
                        assert(queue@[i] == q0[i + 1]);
                        assert(q0[0].0 != q0[i + 1].0);
                    }
                }
                assert forall|i: int| 0 <= i < queue@.len() implies d <= (#[trigger] queue@[i]).1
                    && queue@[i].1 <= d + 1 by {
                    assert(queue@[i] == q0[i + 1]);
                }
                level = d as int;
            }
            if d >= max_depth {
                proof {
                    lemma_len_subset_of(visited@, uni);
                    assert(!reach_le(ed, ks, forward, start, cur, md - 1)) by {
                        if reach_le(ed, ks, forward, start, cur, md - 1) {
                            lemma_reach_mono(ed, ks, forward, start, cur, md - 1, d - 1);
                        }
                    }
                }
                continue;
            }
            proof {
                if cur != start && in_queue(queue@, start) {
                    assert(in_queue(q0, start)) by {
                        let i = choose|i: int| 0 <= i < queue@.len() && (#[trigger] queue@[i]).0 == start;
                        assert(q0[i + 1] == queue@[i]);
                    }
                    assert(visited@.remove(start).contains(cur));
                    vstd::set_lib::lemma_set_empty_equivalency_len(visited@.remove(start));
                    assert(visited@.remove(start).len() > 0);
                }
            }
            let next_edges = if forward { db.edges_from(cur, kinds) } else { db.edges_to(cur, kinds) };
            let ghost sel = |e: Edge| edge_selected(e, cur, ks, forward);
            proof {
                assert(next_edges@ == ed.filter(sel));
            }
            let mut k: usize = 0;
            while k < next_edges.len() && !truncated
                invariant
                    0 <= k <= next_edges@.len(),
                    next_edges@ == ed.filter(sel),
                    sel == (|e: Edge| edge_selected(e, cur, ks, forward)),
                    db.wf(),
                    ed == db.edge_seq(),
                    ns == db.node_seq(),
                    ks == kinds@,
                    md == max_depth as int,
                    uni == id_universe(ed, start),
                    uni.finite(),
                    visited@.subset_of(uni),
                    visited@.finite(),
                    visited@.contains(start),
                    visited@.contains(cur),
                    !in_queue(queue@, start),
                    d < md,
                    level == d,
                    dist_is(ed, ks, forward, start, cur, d as int),
                    !in_queue(queue@, cur),
                    2 * (uni.len() - visited@.len()) + queue@.len() < measure0,
                    truncated ==> visited@.len() > HARD_LIMIT
                        && exists|x: NodeId| !visited@.contains(x) && reach_le(ed, ks, forward, start, x, md),
                    forall|i: int| 0 <= i < queue@.len() ==> {
                        &&& visited@.contains((#[trigger] queue@[i]).0)
                        &&& dist_is(ed, ks, forward, start, queue@[i].0, queue@[i].1 as int)
                        &&& queue@[i].1 <= md
                        &&& d <= queue@[i].1 <= d + 1
                    },
                    forall|i: int, j: int| 0 <= i < j < queue@.len() ==> {
                        &&& (#[trigger] queue@[i]).1 <= (#[trigger] queue@[j]).1
                        &&& queue@[j].1 <= queue@[i].1 + 1
                        &&& queue@[i].0 != queue@[j].0
                    },
                    forall|v: NodeId| #[trigger] visited@.contains(v) ==> reach_le(ed, ks, forward, start, v, md),
                    visited@.len() <= HARD_LIMIT + 1,
                    nodes@.len() + 1 <= visited@.len(),
                    forall|j: int| 0 <= j < edges@.len() ==> visited@.contains(near_end(#[trigger] edges@[j], forward))
                        && visited@.contains(far_end(edges@[j], forward)),
                    closed_except(ed, ks, forward, start, visited@, queue@, Some(cur), md),
                    forall|j: int| 0 <= j < k ==> visited@.contains(far_end(#[trigger] next_edges@[j], forward)),
                    forall|i: int, u: NodeId| #![trigger ed[i], visited@.contains(u)]
                        0 <= i < ed.len() && visited@.contains(u) && !in_queue(queue@, u) && u != cur
                        && reach_le(ed, ks, forward, start, u, md - 1) && edge_selected(ed[i], u, ks, forward)
                        ==> edges@.contains(ed[i]),
                    forall|j: int| 0 <= j < k ==> edges@.contains(#[trigger] next_edges@[j]),
                    nodes@.len() == depths@.len(),
                    forall|i: int| 0 <= i < nodes@.len() ==> {
                        &&& ns.contains(#[trigger] nodes@[i])
                        &&& nodes@[i].id != start
                        &&& visited@.contains(nodes@[i].id)
                        &&& 1 <= depths@[i] <= md
                        &&& depths@[i] <= d + 1
                        &&& dist_is(ed, ks, forward, start, nodes@[i].id, depths@[i] as int)
                    },
                    forall|i: int, j: int| 0 <= i < j < nodes@.len() ==>
                        #[trigger] nodes@[i].id != #[trigger] nodes@[j].id,
                    forall|i: int, j: int| 0 <= i < j < depths@.len() ==>
                        #[trigger] depths@[i] <= #[trigger] depths@[j],
                    forall|v: NodeId| #[trigger] visited@.contains(v) && v != start && db.has_node(v)
                        ==> exists|i: int| 0 <= i < nodes@.len() && #[trigger] nodes@[i].id == v,
                    forall|j: int| 0 <= j < edges@.len() ==>
                        edge_reached(ed, ks, forward, start, md, #[trigger] edges@[j]),
                decreases next_edges@.len() - k + (if truncated { 0int } else { 1 }),
            {
                let e = &next_edges[k];
                let next_id = if forward { e.to } else { e.from };
                if !visited.contains(&next_id) && visited.len() > HARD_LIMIT {
                    proof {
                        broadcast use vstd::seq_lib::group_filter_ensures;
                        assert(sel(next_edges@[k as int]));
                        assert(next_edges@.contains(next_edges@[k as int]));
                        assert(ed.filter(sel).contains(next_edges@[k as int]));
                        ed.lemma_filter_contains_rev(sel, next_edges@[k as int]);
                        assert(step(ed, ks, forward, cur, next_id));
                        lemma_reach_step(ed, ks, forward, start, cur, next_id, d as int);
                        lemma_reach_mono(ed, ks, forward, start, next_id, d + 1, md);
                    }
                    truncated = true;
                    continue;
                }
                let ghost vis0 = visited@;
                let ghost qq0 = queue@;
                let ghost ed0 = edges@;
                proof {
                    broadcast use vstd::seq_lib::group_filter_ensures;
                    assert(sel(next_edges@[k as int]));
                    assert(next_edges@.contains(next_edges@[k as int]));
                    assert(ed.filter(sel).contains(next_edges@[k as int]));
                    ed.lemma_filter_contains_rev(sel, next_edges@[k as int]);
                    assert(ed.contains(next_edges@[k as int]));
                    let i = choose|i: int| 0 <= i < ed.len() && ed[i] == next_edges@[k as int];
                    assert(step(ed, ks, forward, cur, next_id));
                    lemma_reach_step(ed, ks, forward, start, cur, next_id, d as int);
                    lemma_universe(ed, start, i);
                    lemma_reach_mono(ed, ks, forward, start, cur, d as int, md - 1);
                    assert(near_end(*e, forward) == cur);
                    assert(edge_reached(ed, ks, forward, start, md, *e));
                }
                edges.push(e.duplicate());
                proof {
                    assert(edges@[edges@.len() - 1] == next_edges@[k as int]);
                    assert forall|j: int| 0 <= j < edges@.len() implies
                        edge_reached(ed, ks, forward, start, md, #[trigger] edges@[j]) by {
                        if j < ed0.len() {
                            assert(edges@[j] == ed0[j]);
                        }
                    }
                    assert forall|x: Edge| ed0.contains(x) implies edges@.contains(x) by {
                        let j = choose|j: int| 0 <= j < ed0.len() && ed0[j] == x;
                        assert(edges@[j] == x);
                    }
                }
                if visited.insert(next_id) {
                    proof {
                        assert(!vis0.contains(next_id));
                        assert(next_id != start);
                        assert(!reach_le(ed, ks, forward, start, next_id, d as int)) by {
                            if reach_le(ed, ks, forward, start, next_id, d as int) {
                                lemma_reached_visited(ed, ks, forward, start, vis0, qq0, Some(cur), d as int, md, d as int, next_id);
                            }
                        }
                        assert(dist_is(ed, ks, forward, start, next_id, d + 1));
                        lemma_reach_mono(ed, ks, forward, start, next_id, d + 1, md);
                        vstd::set_lib::lemma_len_subset(visited@, uni);
                    }
                    match db.lookup_node(next_id) {
                        Some(n) => {
                            let ghost nodes0 = nodes@;
                            let ghost depths0 = depths@;
                            proof {
                                let i = choose|i: int| 0 <= i < db.node_rows().len() && db.node_rows()[i].node == n && n.id == next_id;
                                assert(ns[i] == n);
                            }
                            nodes.push(n);
                            depths.push(d + 1);
                            proof {
                                assert forall|i: int, j: int| 0 <= i < j < depths@.len() implies
                                    #[trigger] depths@[i] <= #[trigger] depths@[j] by {
                                    assert(depths@[i] == depths0[i]);
                                    if j < depths0.len() {
                                        assert(depths@[j] == depths0[j]);
                                    } else {
                                        assert(nodes@[i] == nodes0[i]);
                                    }
                                }
                                assert forall|v: NodeId| #[trigger] visited@.contains(v) && v != start && db.has_node(v)
                                    implies exists|i: int| 0 <= i < nodes@.len() && #[trigger] nodes@[i].id == v by {
                                    if v == next_id {
                                        assert(nodes@[nodes@.len() - 1].id == v);
                                    } else {
                                        assert(vis0.contains(v));
                                        let i = choose|i: int| 0 <= i < nodes0.len() && #[trigger] nodes0[i].id == v;
                                        assert(nodes@[i] == nodes0[i]);
                                    }
                                }
                            }
                        },
                        None => {
                            proof {
                                assert forall|v: NodeId| #[trigger] visited@.contains(v) && v != start && db.has_node(v)
                                    implies exists|i: int| 0 <= i < nodes@.len() && #[trigger] nodes@[i].id == v by {
                                    assert(vis0.contains(v));
                                }
                            }
                        },
                    }
                    queue.push_back((next_id, d + 1));
                    proof {
                        assert(queue@ =~= qq0.push((next_id, (d + 1) as u32)));
                        assert forall|u: NodeId| in_queue(qq0, u) implies in_queue(queue@, u) by {
                            let i = choose|i: int| 0 <= i < qq0.len() && (#[trigger] qq0[i]).0 == u;
                            assert(queue@[i] == qq0[i]);
                        }
                        assert(!in_queue(queue@, cur)) by {
                            if in_queue(queue@, cur) {
                                let i = choose|i: int| 0 <= i < queue@.len() && (#[trigger] queue@[i]).0 == cur;
                                if i < qq0.len() {
                                    assert(queue@[i] == qq0[i]);
                                }
                            }
                        }
                        assert forall|i: int, j: int| 0 <= i < j < queue@.len() implies {
                            &&& (#[trigger] queue@[i]).1 <= (#[trigger] queue@[j]).1
                            &&& queue@[j].1 <= queue@[i].1 + 1
                            &&& queue@[i].0 != queue@[j].0
                        } by {
                            assert(queue@[i] == qq0[i]);
                            if j < qq0.len() {
                                assert(queue@[j] == qq0[j]);
                            }
                        }
                        assert forall|u: NodeId, v: NodeId|
                            #![trigger visited@.contains(u), step(ed, ks, forward, u, v)]
                            visited@.contains(u) && !in_queue(queue@, u) && Some(cur) != Some(u)
                                && reach_le(ed, ks, forward, start, u, md - 1)
                                && step(ed, ks, forward, u, v) implies visited@.contains(v) by {
                            if u == next_id {
                                assert(queue@[queue@.len() - 1].0 == u);
                            } else {
                                assert(vis0.contains(u));
                                assert(!in_queue(qq0, u));
                            }
                        }
                        assert forall|i: int, u: NodeId| #![trigger ed[i], visited@.contains(u)]
                            0 <= i < ed.len() && visited@.contains(u) && !in_queue(queue@, u) && u != cur
                            && reach_le(ed, ks, forward, start, u, md - 1) && edge_selected(ed[i], u, ks, forward)
                            implies edges@.contains(ed[i]) by {
                            if u == next_id {
                                assert(queue@[queue@.len() - 1].0 == u);
                            } else {
                                assert(vis0.contains(u));
                                assert(!in_queue(qq0, u));
                                assert(ed0.contains(ed[i]));
                            }
                        }
                        assert forall|i: int| 0 <= i < queue@.len() implies {
                            &&& visited@.contains((#[trigger] queue@[i]).0)
                            &&& dist_is(ed, ks, forward, start, queue@[i].0, queue@[i].1 as int)
                            &&& queue@[i].1 <= md
                            &&& d <= queue@[i].1 <= d + 1
                        } by {
                            if i < qq0.len() {
                                assert(queue@[i] == qq0[i]);
                            }
                        }
                    }
                } else {
                    proof {
                        assert(visited@ == vis0);
                    }
                }
                proof {
                    assert forall|j: int| 0 <= j < k + 1 implies visited@.contains(far_end(#[trigger] next_edges@[j], forward)) by {
                        if j < k {
                            assert(vis0.contains(far_end(next_edges@[j], forward)));
                        }
                    }
                    assert forall|j: int| 0 <= j < k + 1 implies edges@.contains(#[trigger] next_edges@[j]) by {
                        if j < k {
                            assert(ed0.contains(next_edges@[j]));
                        } else {
                            assert(edges@[edges@.len() - 1] == next_edges@[j]);
                        }
                    }
                    assert(vis0.subset_of(visited@));
                    assert forall|j: int| 0 <= j < edges@.len() implies visited@.contains(
                        near_end(#[trigger] edges@[j], forward),
                    ) && visited@.contains(far_end(edges@[j], forward)) by {
                        if j < ed0.len() {
                            assert(edges@[j] == ed0[j]);
                        } else {
                            assert(edges@[j] == next_edges@[k as int]);
                        }
                    }
                }
                k = k + 1;
            }
            if truncated {
                break;
            }
            proof {
                lemma_len_subset_of(visited@, uni);
                broadcast use vstd::seq_lib::group_filter_ensures;
                assert forall|v: NodeId| step(ed, ks, forward, cur, v) implies visited@.contains(v) by {
                    let i = choose|i: int| 0 <= i < ed.len() && #[trigger] edge_selected(ed[i], cur, ks, forward)
                        && far_end(ed[i], forward) == v;
                    assert(sel(ed[i]));
                    assert(ed.filter(sel).contains(ed[i]));
                    let j = choose|j: int| 0 <= j < next_edges@.len() && next_edges@[j] == ed[i];
                    assert(visited@.contains(far_end(next_edges@[j], forward)));
                }
                assert forall|i: int| 0 <= i < ed.len() && edge_selected(ed[i], cur, ks, forward)
                    implies edges@.contains(ed[i]) by {
                    assert(sel(ed[i]));
                    assert(ed.filter(sel).contains(ed[i]));
                    let j = choose|j: int| 0 <= j < next_edges@.len() && next_edges@[j] == ed[i];
                    assert(edges@.contains(next_edges@[j]));
                }
            }
        }

        let hits = TraverseHits { nodes, depths, edges, truncated };
        proof {
            assert forall|k: int| 0 <= k < hits.edges@.len() implies {
                &&& id_reported(ns, start, hits.nodes@, near_end(#[trigger] hits.edges@[k], forward))
                &&& id_reported(ns, start, hits.nodes@, far_end(hits.edges@[k], forward))
            } by {
                let e = hits.edges@[k];
                assert(visited@.contains(near_end(e, forward)) && visited@.contains(far_end(e, forward)));
                assert forall|v: NodeId| visited@.contains(v) implies #[trigger] id_reported(ns, start, hits.nodes@, v) by {
                    if v != start && exists|n: Node| #[trigger] ns.contains(n) && n.id == v {
                        let n = choose|n: Node| #[trigger] ns.contains(n) && n.id == v;
                        let j = choose|j: int| 0 <= j < ns.len() && ns[j] == n;
                        assert(db.node_rows()[j].node.id == v);
                        assert(db.has_node(v));
                    }
                }
            }
            if truncated {
                let x = choose|x: NodeId| !visited@.contains(x) && reach_le(ed, ks, forward, start, x, md);
                let s2 = visited@.insert(x);
                assert(s2.finite() && s2.len() > HARD_LIMIT + 1);
                assert forall|v: NodeId| #[trigger] s2.contains(v) implies reach_le(ed, ks, forward, start, v, md) by {
                    if v != x {
                        assert(visited@.contains(v));
                    }
                }
                assert(reach_exceeds(ed, ks, forward, start, md, HARD_LIMIT + 1));
            } else {
                assert forall|n: Node| #[trigger] ns.contains(n) && n.id != start
                    && reach_le(ed, ks, forward, start, n.id, md) implies hits.nodes@.contains(n) by {
                    lemma_reached_visited(ed, ks, forward, start, visited@, queue@, None, md, md, md, n.id);
                    let j = choose|j: int| 0 <= j < ns.len() && ns[j] == n;
                    assert(db.node_rows()[j].node.id == n.id);
                    assert(db.has_node(n.id));
                    let i = choose|i: int| 0 <= i < hits.nodes@.len() && #[trigger] hits.nodes@[i].id == n.id;
                    let j2 = choose|j2: int| 0 <= j2 < ns.len() && ns[j2] == hits.nodes@[i];
                    if j != j2 {
                        if j < j2 {
                            assert(db.node_rows()[j].node.id != db.node_rows()[j2].node.id);
                        } else {
                            assert(db.node_rows()[j2].node.id != db.node_rows()[j].node.id);
                        }
                    }
                    assert(hits.nodes@[i] == n);
                }
                assert forall|e: Edge| #[trigger] edge_reached(ed, ks, forward, start, md, e)
                    implies hits.edges@.contains(e) by {
                    let i = choose|i: int| 0 <= i < ed.len() && ed[i] == e;
                    lemma_reached_visited(ed, ks, forward, start, visited@, queue@, None, md, md, md - 1, near_end(e, forward));
                    assert(edge_selected(ed[i], near_end(e, forward), ks, forward));
                }
                assert(!reach_exceeds(ed, ks, forward, start, md, HARD_LIMIT + 1)) by {
                    if reach_exceeds(ed, ks, forward, start, md, HARD_LIMIT + 1) {
                        let s2 = choose|s2: Set<NodeId>| s2.finite() && s2.len() > HARD_LIMIT + 1
                            && forall|v: NodeId| #[trigger] s2.contains(v) ==> reach_le(ed, ks, forward, start, v, md);
                        assert forall|v: NodeId| s2.contains(v) implies visited@.contains(v) by {
                            lemma_reached_visited(ed, ks, forward, start, visited@, queue@, None, md, md, md, v);
                        }
                        vstd::set_lib::lemma_len_subset(s2, visited@);
                    }
                }
            }
        }
        Ok(hits)
    }
}

/// A subset of a finite set is no larger.
proof fn lemma_len_subset_of(s: Set<NodeId>, t: Set<NodeId>)
    requires
        s.subset_of(t),
        t.finite(),
    ensures
        s.finite(),
        s.len() <= t.len(),
{
    vstd::set_lib::lemma_len_subset(s, t);
}

} // verus!

verus! {

/// Kinds of relation along which an impact spreads.
pub open spec fn impact_kinds() -> Seq<EdgeKind> {
    seq![EdgeKind::Calls, EdgeKind::References, EdgeKind::Imports, EdgeKind::Extends, EdgeKind::Implements]
}

/// Number of symbols in `s` whose kind is named `name`.
pub open spec fn count_kind(s: Seq<Node>, name: Seq<char>) -> nat
    decreases s.len(),
{
    if s.len() == 0 {
        0
    } else {
        count_kind(s.drop_last(), name) + if crate::kinds::node_kind_name(s.last().kind) == name { 1nat } else { 0nat }
    }
}

/// `by_kind` counts the symbols of `s` by kind name, once per name, and
/// names exactly the kinds that occur in `s`.
pub open spec fn kind_counts(s: Seq<Node>, by_kind: Seq<(String, u32)>) -> bool {
    &&& forall|i: int, j: int| 0 <= i < j < by_kind.len() ==> (#[trigger] by_kind[i]).0@ != (#[trigger] by_kind[j]).0@
    &&& forall|i: int| 0 <= i < by_kind.len() ==> (#[trigger] by_kind[i]).1 == count_kind(s, by_kind[i].0@)
    &&& forall|i: int| 0 <= i < by_kind.len() ==> (#[trigger] by_kind[i]).1 >= 1
    &&& forall|k: int| 0 <= k < s.len() ==> exists|i: int| 0 <= i < by_kind.len()
        && (#[trigger] by_kind[i]).0@ == crate::kinds::node_kind_name((#[trigger] s[k]).kind)
}

/// The symbols of `nodes` whose depth is (`one`) or is not (`!one`) 1.
pub open spec fn at_depth_one(nodes: Seq<Node>, depths: Seq<u32>, one: bool) -> Seq<Node>
    decreases nodes.len(),
{
    if nodes.len() == 0 || depths.len() != nodes.len() {
        Seq::empty()
    } else {
        let rest = at_depth_one(nodes.drop_last(), depths.drop_last(), one);
        if (depths.last() == 1) == one { rest.push(nodes.last()) } else { rest }
    }
}

/// What an impact report on `id` to `max_depth` holds: the symbols a
/// traversal against dependency relations reaches, split by depth, counted
/// by kind.
pub open spec fn impact_reported(db: Db, id: NodeId, max_depth: u32, rep: ImpactReport) -> bool {
    exists|h: TraverseHits| {
        &&& hits_spec(db.node_seq(), db.edge_seq(), impact_kinds(), false, id, max_depth as int, h)
        &&& rep.direct@ == at_depth_one(h.nodes@, h.depths@, true)
        &&& rep.transitive@ == at_depth_one(h.nodes@, h.depths@, false)
        &&& kind_counts(h.nodes@, rep.by_kind@)
        &&& rep.truncated == h.truncated
        &&& db.node_seq().contains(rep.root)
        &&& rep.root.id == id
    }
}

/// Who depends on a symbol.
#[derive(Debug)]
pub struct ImpactReport {
    pub root: Node,
    /// Dependents one step away.
    pub direct: Vec<Node>,
    /// Dependents further away.
    pub transitive: Vec<Node>,
    /// Number of dependents per kind name.
    pub by_kind: Vec<(String, u32)>,
    pub truncated: bool,
}

impl<'a> Traversal<'a> {
    /// Symbols that call `id`, up to `depth` calls away.
    pub fn callers(&self, id: NodeId, depth: u32) -> (r: Result<TraverseHits, Error>)
        ensures
            r matches Ok(h) && hits_spec(
                self.store().node_seq(), self.store().edge_seq(), seq![EdgeKind::Calls], false, id, depth as int, h,
            ),
    {
        let kinds = [EdgeKind::Calls];
        assert(kinds@ =~= seq![EdgeKind::Calls]);
        self.traverse(id, depth, &kinds, false)
    }

    /// Symbols that `id` calls, up to `depth` calls away.
    pub fn callees(&self, id: NodeId, depth: u32) -> (r: Result<TraverseHits, Error>)
        ensures
            r matches Ok(h) && hits_spec(
                self.store().node_seq(), self.store().edge_seq(), seq![EdgeKind::Calls], true, id, depth as int, h,
            ),
    {
        let kinds = [EdgeKind::Calls];
        assert(kinds@ =~= seq![EdgeKind::Calls]);
        self.traverse(id, depth, &kinds, true)
    }

    /// Symbols that depend on `id` through calls, references, imports,
    /// extension or implementation, up to `max_depth` steps away. Fails when
    /// `id` is not stored.
    pub fn impact_radius(&self, id: NodeId, max_depth: u32) -> (r: Result<ImpactReport, Error>)
        ensures
            match r {
                Ok(rep) => impact_reported(*self.store(), id, max_depth, rep),
                Err(e) => {
                    &&& !self.store().has_node(id)
                    &&& e matches Error::Invalid(m) && m@ == not_found_message(id)
                },
            },
    {
        let kinds = [EdgeKind::Calls, EdgeKind::References, EdgeKind::Imports, EdgeKind::Extends, EdgeKind::Implements];
        assert(kinds@ =~= impact_kinds());
        let hits = match self.traverse(id, max_depth, &kinds, false) {
            Ok(h) => h,
            Err(e) => { return Err(e); },
        };
        let root = match self.db.lookup_node(id) {
            Some(n) => n,
            None => {
                let mut msg = String::new();
                push_str(&mut msg, "node ");
                push_decimal_i64(&mut msg, id);
                push_str(&mut msg, " not found");
                proof { reveal_strlit("node "); reveal_strlit(" not found"); }
                return Err(Error::Invalid(msg));
            },
        };
        proof {
            let i = choose|i: int| 0 <= i < self.store().node_rows().len() && self.store().node_rows()[i].node == root && root.id == id;
            assert(self.store().node_seq()[i] == root);
        }
        let n = hits.nodes.len();
        assert(n <= HARD_LIMIT);
        let mut by_kind: Vec<(String, u32)> = Vec::new();
        let mut direct: Vec<Node> = Vec::new();
        let mut transitive: Vec<Node> = Vec::new();
        let mut i: usize = 0;
        while i < n
            invariant
                n == hits.nodes@.len(),
                hits.nodes@.len() == hits.depths@.len(),
                n <= u32::MAX,
                0 <= i <= n,
                kind_counts(hits.nodes@.take(i as int), by_kind@),
                direct@ == at_depth_one(hits.nodes@.take(i as int), hits.depths@.take(i as int), true),
                transitive@ == at_depth_one(hits.nodes@.take(i as int), hits.depths@.take(i as int), false),
            decreases n - i,
        {
            let node = &hits.nodes[i];
            let ghost s0 = hits.nodes@.take(i as int);
            let ghost s1 = hits.nodes@.take(i + 1);
            let ghost d1 = hits.depths@.take(i + 1);
            proof {
                assert(s1.drop_last() =~= s0);
                assert(d1.drop_last() =~= hits.depths@.take(i as int));
                assert(s1.last() == *node);
            }
            add_kind(&mut by_kind, node, Ghost(s0), Ghost(s1));
            if hits.depths[i] == 1 {
                direct.push(node.duplicate());
            } else {
                transitive.push(node.duplicate());
            }
            i = i + 1;
        }
        proof {
            assert(hits.nodes@.take(n as int) =~= hits.nodes@);
            assert(hits.depths@.take(n as int) =~= hits.depths@);
        }
        Ok(ImpactReport { root, direct, transitive, by_kind, truncated: hits.truncated })
    }
}

/// The message for a missing symbol: `node <id> not found`.
pub open spec fn not_found_message(id: NodeId) -> Seq<char> {
    "node "@ + crate::text::dec_int(id as int) + " not found"@
}

/// Counts one more symbol in `by_kind`.
#[verifier::loop_isolation(false)]
fn add_kind(by_kind: &mut Vec<(String, u32)>, node: &Node, Ghost(s0): Ghost<Seq<Node>>, Ghost(s1): Ghost<Seq<Node>>)
    requires
        kind_counts(s0, old(by_kind)@),
        s1.len() == s0.len() + 1,
        s1.drop_last() == s0,
        s1.last() == *node,
        s1.len() <= u32::MAX,
    ensures
        kind_counts(s1, final(by_kind)@),
{
    let name = String::from_str(node.kind.as_str());
    let ghost nm = crate::kinds::node_kind_name(node.kind);
    proof { lemma_count_bound(s0, nm); }
    let mut j: usize = 0;
    while j < by_kind.len()
        invariant
            0 <= j <= by_kind@.len(),
            by_kind@ == old(by_kind)@,
            name@ == nm,
            forall|k: int| 0 <= k < j ==> (#[trigger] by_kind@[k]).0@ != nm,
        decreases by_kind.len() - j,
    {
        if by_kind[j].0 == name {
            let c = by_kind[j].1;
            proof {
                lemma_count_bound(s0, by_kind@[j as int].0@);
            }
            let key = by_kind[j].0.clone();
            let ghost before = by_kind@;
            by_kind.set(j, (key, c + 1));
            proof {
                assert forall|k: int| 0 <= k < by_kind@.len() implies (#[trigger] by_kind@[k]).1 == count_kind(s1, by_kind@[k].0@) by {
                    assert(s1.drop_last() == s0);
                    if k != j {
                        assert(before[k].0@ != before[j as int].0@);
                    }
                }
                assert forall|a: int, b: int| 0 <= a < b < by_kind@.len() implies (#[trigger] by_kind@[a]).0@ != (#[trigger] by_kind@[b]).0@ by {
                    assert(before[a].0@ != before[b].0@);
                }
                assert forall|k: int| 0 <= k < s1.len() implies exists|i: int| 0 <= i < by_kind@.len()
                    && (#[trigger] by_kind@[i]).0@ == crate::kinds::node_kind_name((#[trigger] s1[k]).kind) by {
                    if k < s0.len() {
                        assert(s1[k] == s0[k]);
                        let i = choose|i: int| 0 <= i < before.len() && (#[trigger] before[i]).0@ == crate::kinds::node_kind_name(s0[k].kind);
                        assert(by_kind@[i].0@ == before[i].0@);
                    } else {
                        assert(by_kind@[j as int].0@ == nm);
                    }
                }
            }
            return;
        }
        j = j + 1;
    }
    let ghost before = by_kind@;
    proof {
        assert(count_kind(s0, nm) == 0) by {
            lemma_count_absent(s0, nm);
        }
    }
    by_kind.push((name, 1));
    proof {
        assert forall|k: int| 0 <= k < by_kind@.len() implies (#[trigger] by_kind@[k]).1 == count_kind(s1, by_kind@[k].0@) by {
            if k < before.len() {
                assert(by_kind@[k] == before[k]);
                assert(before[k].0@ != nm);
            }
        }
        assert forall|a: int, b: int| 0 <= a < b < by_kind@.len() implies (#[trigger] by_kind@[a]).0@ != (#[trigger] by_kind@[b]).0@ by {
            if b < before.len() {
                assert(before[a].0@ != before[b].0@);
            } else {
                assert(before[a].0@ != nm);
            }
        }
        assert forall|k: int| 0 <= k < s1.len() implies exists|i: int| 0 <= i < by_kind@.len()
            && (#[trigger] by_kind@[i]).0@ == crate::kinds::node_kind_name((#[trigger] s1[k]).kind) by {
            if k < s0.len() {
                assert(s1[k] == s0[k]);
                let i = choose|i: int| 0 <= i < before.len() && (#[trigger] before[i]).0@ == crate::kinds::node_kind_name(s0[k].kind);
                assert(by_kind@[i].0@ == before[i].0@);
            } else {
                assert(by_kind@[before.len() as int].0@ == nm);
            }
        }
    }
}

proof fn lemma_count_bound(s: Seq<Node>, name: Seq<char>)
    ensures
        count_kind(s, name) <= s.len(),
    decreases s.len(),
{
    if s.len() > 0 {
        lemma_count_bound(s.drop_last(), name);
    }
}

/// A name that no symbol of `s` has is counted zero times.
proof fn lemma_count_absent(s: Seq<Node>, name: Seq<char>)
    requires
        forall|k: int| 0 <= k < s.len() ==> crate::kinds::node_kind_name((#[trigger] s[k]).kind) != name,
    ensures
        count_kind(s, name) == 0,
    decreases s.len(),
{
    if s.len() > 0 {
        assert forall|k: int| 0 <= k < s.drop_last().len() implies crate::kinds::node_kind_name((#[trigger] s.drop_last()[k]).kind) != name by {
            assert(s.drop_last()[k] == s[k]);
        }
        lemma_count_absent(s.drop_last(), name);
        assert(crate::kinds::node_kind_name(s[s.len() - 1].kind) != name);
    }
}

} // verus!

verus! {

/// Reversing a walk along relations gives a walk against them.
proof fn lemma_reverse_walk(edges: Seq<Edge>, kinds: Seq<EdgeKind>, fwd: bool, bwd: bool, p: Seq<NodeId>)
    requires
        is_walk(edges, kinds, fwd, p),
        bwd == !fwd,
    ensures
        is_walk(edges, kinds, bwd, p.reverse()),
{
    let r = p.reverse();
    assert forall|i: int| 0 <= i < r.len() - 1 implies #[trigger] step(edges, kinds, bwd, r[i], r[i + 1]) by {
        let a = p.len() - 1 - i;
        assert(r[i] == p[a] && r[i + 1] == p[a - 1]);
        assert(step(edges, kinds, fwd, p[a - 1], p[a - 1 + 1]));
        let j = choose|j: int| 0 <= j < edges.len() && #[trigger] edge_selected(edges[j], p[a - 1], kinds, fwd)
            && far_end(edges[j], fwd) == p[a];
        assert(edge_selected(edges[j], p[a], kinds, bwd));
    }
}

/// `v` is within `k` steps of `u` along relations exactly when `u` is
/// within `k` steps of `v` against them.
pub proof fn lemma_reach_reverse(edges: Seq<Edge>, kinds: Seq<EdgeKind>, u: NodeId, v: NodeId, k: int)
    ensures
        reach_le(edges, kinds, true, u, v, k) <==> reach_le(edges, kinds, false, v, u, k),
{
    if reach_le(edges, kinds, true, u, v, k) {
        let p = choose|p: Seq<NodeId>| #[trigger] is_walk(edges, kinds, true, p) && p[0] == u
            && p[p.len() - 1] == v && p.len() <= k + 1;
        lemma_reverse_walk(edges, kinds, true, false, p);
        assert(is_walk(edges, kinds, false, p.reverse()));
    }
    if reach_le(edges, kinds, false, v, u, k) {
        let p = choose|p: Seq<NodeId>| #[trigger] is_walk(edges, kinds, false, p) && p[0] == v
            && p[p.len() - 1] == u && p.len() <= k + 1;
        lemma_reverse_walk(edges, kinds, false, true, p);
        assert(is_walk(edges, kinds, true, p.reverse()));
    }
}

/// Callers and callees are dual: when neither traversal is truncated,
/// symbol `b` is among the callees of `a` to depth `d` exactly when `a` is
/// among the callers of `b` to depth `d`.
pub proof fn lemma_callers_callees_dual(
    db: &Db,
    a: Node,
    b: Node,
    d: u32,
    callees_of_a: TraverseHits,
    callers_of_b: TraverseHits,
)
    requires
        db.node_seq().contains(a),
        db.node_seq().contains(b),
        hits_spec(db.node_seq(), db.edge_seq(), seq![EdgeKind::Calls], true, a.id, d as int, callees_of_a),
        hits_spec(db.node_seq(), db.edge_seq(), seq![EdgeKind::Calls], false, b.id, d as int, callers_of_b),
        !callees_of_a.truncated,
        !callers_of_b.truncated,
    ensures
        callees_of_a.nodes@.contains(b) <==> callers_of_b.nodes@.contains(a),
{
    let ed = db.edge_seq();
    let ks = seq![EdgeKind::Calls];
    lemma_reach_reverse(ed, ks, a.id, b.id, d as int);
    if callees_of_a.nodes@.contains(b) {
        let i = choose|i: int| 0 <= i < callees_of_a.nodes@.len() && callees_of_a.nodes@[i] == b;
        assert(dist_is(ed, ks, true, a.id, b.id, callees_of_a.depths@[i] as int));
        lemma_reach_mono(ed, ks, true, a.id, b.id, callees_of_a.depths@[i] as int, d as int);
    }
    if callers_of_b.nodes@.contains(a) {
        let i = choose|i: int| 0 <= i < callers_of_b.nodes@.len() && callers_of_b.nodes@[i] == a;
        assert(dist_is(ed, ks, false, b.id, a.id, callers_of_b.depths@[i] as int));
        lemma_reach_mono(ed, ks, false, b.id, a.id, callers_of_b.depths@[i] as int, d as int);
    }
}

} // verus!

verus! {

/// The fewest steps to a node are one number.
proof fn lemma_dist_unique(
    edges: Seq<Edge>,
    kinds: Seq<EdgeKind>,
    forward: bool,
    start: NodeId,
    v: NodeId,
    a: int,
    b: int,
)
    requires
        dist_is(edges, kinds, forward, start, v, a),
        dist_is(edges, kinds, forward, start, v, b),
    ensures
        a == b,
{
    if a < b {
        lemma_reach_mono(edges, kinds, forward, start, v, a, b - 1);
    } else if b < a {
        lemma_reach_mono(edges, kinds, forward, start, v, b, a - 1);
    }
}

/// Whether a traversal reports symbol `n` at depth `d`.
pub open spec fn reported_at(h: TraverseHits, n: Node, d: u32) -> bool {
    exists|j: int| 0 <= j < h.nodes@.len() && h.nodes@[j] == n && h.depths@[j] == d
}

/// A deeper complete traversal extends a shallower one: on one store, each
/// symbol reached within `d1` steps is reached within `d2 >= d1` steps at the
/// same depth, and the symbols the deeper traversal reaches at depth at most
/// `d1` are exactly those of the shallower one.
pub proof fn lemma_deeper_walk_extends(
    nodes: Seq<Node>,
    edges: Seq<Edge>,
    kinds: Seq<EdgeKind>,
    forward: bool,
    start: NodeId,
    d1: int,
    d2: int,
    h1: TraverseHits,
    h2: TraverseHits,
)
    requires
        d1 <= d2,
        hits_spec(nodes, edges, kinds, forward, start, d1, h1),
        hits_spec(nodes, edges, kinds, forward, start, d2, h2),
        !h1.truncated,
        !h2.truncated,
    ensures
        forall|i: int| 0 <= i < h1.nodes@.len() ==> #[trigger] reported_at(h2, h1.nodes@[i], h1.depths@[i]),
        forall|j: int| 0 <= j < h2.nodes@.len() && h2.depths@[j] <= d1 ==> #[trigger] reported_at(
            h1,
            h2.nodes@[j],
            h2.depths@[j],
        ),
{
    assert forall|i: int| 0 <= i < h1.nodes@.len() implies #[trigger] reported_at(h2, h1.nodes@[i], h1.depths@[i]) by {
        let n = h1.nodes@[i];
        assert(nodes.contains(n));
        lemma_reach_mono(edges, kinds, forward, start, n.id, h1.depths@[i] as int, d2);
        assert(h2.nodes@.contains(n));
        let j = choose|j: int| 0 <= j < h2.nodes@.len() && h2.nodes@[j] == n;
        assert(dist_is(edges, kinds, forward, start, n.id, h2.depths@[j] as int));
        lemma_dist_unique(edges, kinds, forward, start, n.id, h1.depths@[i] as int, h2.depths@[j] as int);
    }
    assert forall|j: int| 0 <= j < h2.nodes@.len() && h2.depths@[j] <= d1 implies #[trigger] reported_at(
        h1,
        h2.nodes@[j],
        h2.depths@[j],
    ) by {
        let n = h2.nodes@[j];
        assert(nodes.contains(n));
        lemma_reach_mono(edges, kinds, forward, start, n.id, h2.depths@[j] as int, d1);
        assert(h1.nodes@.contains(n));
        let i = choose|i: int| 0 <= i < h1.nodes@.len() && h1.nodes@[i] == n;
        assert(dist_is(edges, kinds, forward, start, n.id, h1.depths@[i] as int));
        lemma_dist_unique(edges, kinds, forward, start, n.id, h1.depths@[i] as int, h2.depths@[j] as int);
    }
}

/// A complete traversal to depth 1 reports exactly the stored symbols one
/// relation away from the start: the direct callees (or callers).
pub proof fn lemma_depth_one_is_direct(
    nodes: Seq<Node>,
    edges: Seq<Edge>,
    kinds: Seq<EdgeKind>,
    forward: bool,
    start: NodeId,
    h: TraverseHits,
)
    requires
        hits_spec(nodes, edges, kinds, forward, start, 1, h),
        !h.truncated,
    ensures
        forall|n: Node| #[trigger] nodes.contains(n) && n.id != start ==> (h.nodes@.contains(n) <==> step(
            edges,
            kinds,
            forward,
            start,
            n.id,
        )),
{
    assert forall|n: Node| #[trigger] nodes.contains(n) && n.id != start implies (h.nodes@.contains(n)
        <==> step(edges, kinds, forward, start, n.id)) by {
        lemma_reach_zero(edges, kinds, forward, start, start);
        lemma_reach_zero(edges, kinds, forward, start, n.id);
        if h.nodes@.contains(n) {
            let i = choose|i: int| 0 <= i < h.nodes@.len() && h.nodes@[i] == n;
            assert(dist_is(edges, kinds, forward, start, n.id, h.depths@[i] as int));
            let u = lemma_reach_split(edges, kinds, forward, start, n.id, 1);
            lemma_reach_zero(edges, kinds, forward, start, u);
        }
        if step(edges, kinds, forward, start, n.id) {
            lemma_reach_step(edges, kinds, forward, start, start, n.id, 0);
        }
    }
}

/// Whether a relation kind makes one symbol depend on another: a call, a
/// reference, an import, an extension or an implementation. Containment is
/// not one.
pub open spec fn is_dependency(k: EdgeKind) -> bool {
    ||| k == EdgeKind::Calls
    ||| k == EdgeKind::References
    ||| k == EdgeKind::Imports
    ||| k == EdgeKind::Extends
    ||| k == EdgeKind::Implements
}

/// Each entry of `at_depth_one(nodes, depths, one)` is an entry of `nodes`
/// whose depth is one (or, for `!one`, is not).
proof fn lemma_at_depth_one(nodes: Seq<Node>, depths: Seq<u32>, one: bool, i: int)
    requires
        0 <= i < at_depth_one(nodes, depths, one).len(),
    ensures
        exists|j: int| 0 <= j < nodes.len() && j < depths.len() && nodes[j] == at_depth_one(nodes, depths, one)[i]
            && (depths[j] == 1) == one,
    decreases nodes.len(),
{
    let rest = at_depth_one(nodes.drop_last(), depths.drop_last(), one);
    if i < rest.len() {
        lemma_at_depth_one(nodes.drop_last(), depths.drop_last(), one, i);
        let j = choose|j: int| 0 <= j < nodes.drop_last().len() && j < depths.drop_last().len()
            && nodes.drop_last()[j] == rest[i] && (depths.drop_last()[j] == 1) == one;
        assert(nodes[j] == nodes.drop_last()[j] && depths[j] == depths.drop_last()[j]);
    } else {
        assert(nodes[nodes.len() - 1] == at_depth_one(nodes, depths, one)[i]);
    }
}

/// Impact spreads only along dependency relations, never along
/// containment: each direct dependent has a call, reference, import,
/// extension or implementation relation to the symbol, and each dependent
/// reaches it within `max_depth` such relations.
pub proof fn lemma_impact_follows_dependencies(db: Db, id: NodeId, max_depth: u32, rep: ImpactReport)
    requires
        impact_reported(db, id, max_depth, rep),
    ensures
        forall|i: int| 0 <= i < rep.direct@.len() ==> exists|j: int| 0 <= j < db.edge_seq().len()
            && db.edge_seq()[j].to == id && db.edge_seq()[j].from == (#[trigger] rep.direct@[i]).id
            && is_dependency(db.edge_seq()[j].kind),
        forall|i: int| 0 <= i < rep.direct@.len() ==> reach_le(
            db.edge_seq(),
            seq![EdgeKind::Calls, EdgeKind::References, EdgeKind::Imports, EdgeKind::Extends, EdgeKind::Implements],
            false,
            id,
            (#[trigger] rep.direct@[i]).id,
            max_depth as int,
        ),
        forall|i: int| 0 <= i < rep.transitive@.len() ==> reach_le(
            db.edge_seq(),
            seq![EdgeKind::Calls, EdgeKind::References, EdgeKind::Imports, EdgeKind::Extends, EdgeKind::Implements],
            false,
            id,
            (#[trigger] rep.transitive@[i]).id,
            max_depth as int,
        ),
{
    let h = choose|h: TraverseHits| {
        &&& hits_spec(db.node_seq(), db.edge_seq(), impact_kinds(), false, id, max_depth as int, h)
        &&& rep.direct@ == at_depth_one(h.nodes@, h.depths@, true)
        &&& rep.transitive@ == at_depth_one(h.nodes@, h.depths@, false)
        &&& kind_counts(h.nodes@, rep.by_kind@)
        &&& rep.truncated == h.truncated
        &&& db.node_seq().contains(rep.root)
        &&& rep.root.id == id
    };
    let ed = db.edge_seq();
    let five = seq![EdgeKind::Calls, EdgeKind::References, EdgeKind::Imports, EdgeKind::Extends, EdgeKind::Implements];
    assert(impact_kinds() =~= five);
    assert forall|i: int| 0 <= i < rep.direct@.len() implies exists|j: int| 0 <= j < ed.len() && ed[j].to == id
        && ed[j].from == (#[trigger] rep.direct@[i]).id && is_dependency(ed[j].kind) by {
        lemma_at_depth_one(h.nodes@, h.depths@, true, i);
        let k = choose|k: int| 0 <= k < h.nodes@.len() && k < h.depths@.len()
            && h.nodes@[k] == rep.direct@[i] && (h.depths@[k] == 1) == true;
        let v = h.nodes@[k].id;
        assert(dist_is(ed, impact_kinds(), false, id, v, 1));
        let u = lemma_reach_split(ed, impact_kinds(), false, id, v, 1);
        lemma_reach_zero(ed, impact_kinds(), false, id, u);
        let j = choose|j: int| 0 <= j < ed.len() && #[trigger] edge_selected(ed[j], u, impact_kinds(), false)
            && far_end(ed[j], false) == v;
        assert(impact_kinds().contains(ed[j].kind));
        let m = choose|m: int| 0 <= m < impact_kinds().len() && impact_kinds()[m] == ed[j].kind;
        assert(is_dependency(ed[j].kind));
    }
    assert forall|i: int| 0 <= i < rep.direct@.len() implies reach_le(ed, five, false, id,
        (#[trigger] rep.direct@[i]).id, max_depth as int) by {
        lemma_at_depth_one(h.nodes@, h.depths@, true, i);
        let k = choose|k: int| 0 <= k < h.nodes@.len() && k < h.depths@.len()
            && h.nodes@[k] == rep.direct@[i] && (h.depths@[k] == 1) == true;
        assert(dist_is(ed, impact_kinds(), false, id, h.nodes@[k].id, h.depths@[k] as int));
        lemma_reach_mono(ed, impact_kinds(), false, id, h.nodes@[k].id, h.depths@[k] as int, max_depth as int);
    }
    assert forall|i: int| 0 <= i < rep.transitive@.len() implies reach_le(ed, five, false, id,
        (#[trigger] rep.transitive@[i]).id, max_depth as int) by {
        lemma_at_depth_one(h.nodes@, h.depths@, false, i);
        let k = choose|k: int| 0 <= k < h.nodes@.len() && k < h.depths@.len()
            && h.nodes@[k] == rep.transitive@[i] && (h.depths@[k] == 1) == false;
        assert(dist_is(ed, impact_kinds(), false, id, h.nodes@[k].id, h.depths@[k] as int));
        lemma_reach_mono(ed, impact_kinds(), false, id, h.nodes@[k].id, h.depths@[k] as int, max_depth as int);
    }
}

} // verus!
