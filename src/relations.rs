//! Typed edges between the entities of one owner, and the graph queries
//! over them: neighbours above a strength, and paths found breadth-first.
use vstd::prelude::*;

use crate::entity_linker::{lower_of, lowercase};
use crate::models::EventMemory;
use crate::text::{chars_of, contains, seq_contains};

verus! {

/// Kinds of relation between two entities.
#[derive(Debug, Clone, Copy, PartialEq, Eq, Structural)]
pub enum RelationType {
    BelongsTo,
    RelatedTo,
    LocatedAt,
    WorksAt,
    FriendsWith,
    FamilyOf,
    Owns,
    CreatedBy,
    PartOf,
    Custom,
}

/// A directed edge between two entities of one owner.
#[derive(Debug, Clone)]
pub struct EntityRelation {
    pub relation_id: u64,
    pub user_id: String,
    pub source_entity_id: u64,
    pub target_entity_id: u64,
    pub relation_type: RelationType,
    /// Thousandths.
    pub confidence: u32,
    /// Co-occurrence weight, in thousandths.
    pub strength: u64,
    pub first_seen: i64,
    pub last_seen: i64,
}

impl EntityRelation {
    /// One more extraction of the same edge strengthens it by `step`; the
    /// strength never decreases.
    pub fn reinforce(&mut self, step: u64, now: i64)
        ensures
            final(self).strength == if old(self).strength as int + step <= u64::MAX { (old(self).strength + step) as u64 } else { u64::MAX },
            final(self).strength >= old(self).strength,
            final(self).last_seen == if now > old(self).last_seen { now } else { old(self).last_seen },
            final(self).source_entity_id == old(self).source_entity_id,
            final(self).target_entity_id == old(self).target_entity_id,
    {
        self.strength = self.strength.saturating_add(step);
        if now > self.last_seen {
            self.last_seen = now;
        }
    }
}

/// Edge `k` joins `a` and `b`, in either direction.
pub open spec fn joins(rels: Seq<EntityRelation>, k: int, a: u64, b: u64) -> bool {
    0 <= k < rels.len() && ((rels[k].source_entity_id == a && rels[k].target_entity_id == b)
        || (rels[k].source_entity_id == b && rels[k].target_entity_id == a))
}

pub open spec fn adjacent(rels: Seq<EntityRelation>, a: u64, b: u64) -> bool {
    exists|k: int| joins(rels, k, a, b)
}

/// Consecutive nodes of `p` are joined by edges.
pub open spec fn is_walk(rels: Seq<EntityRelation>, p: Seq<u64>) -> bool {
    forall|i: int| 0 <= i < p.len() - 1 ==> #[trigger] adjacent(rels, p[i], p[i + 1])
}

/// Edge `k` touches `entity` and is at least `min_strength` strong.
pub open spec fn is_neighbor_edge(rels: Seq<EntityRelation>, k: int, entity: u64, min_strength: u64) -> bool {
    0 <= k < rels.len()
        && (rels[k].source_entity_id == entity || rels[k].target_entity_id == entity)
        && rels[k].strength >= min_strength
}

/// The positions of the edges that touch `entity` with at least
/// `min_strength`, in order.
pub fn neighbors(rels: &[EntityRelation], entity: u64, min_strength: u64) -> (r: Vec<usize>)
    ensures
        forall|i: int| 0 <= i < r@.len() ==> is_neighbor_edge(rels@, #[trigger] r@[i] as int, entity, min_strength),
        forall|k: int| is_neighbor_edge(rels@, k, entity, min_strength) ==> r@.contains(k as usize),
        forall|i: int, j: int| 0 <= i < j < r@.len() ==> r@[i] < r@[j],
{
    let mut out: Vec<usize> = Vec::new();
    let mut k: usize = 0;
    while k < rels.len()
        invariant
            k <= rels@.len(),
            forall|i: int| 0 <= i < out@.len() ==> is_neighbor_edge(rels@, #[trigger] out@[i] as int, entity, min_strength) && out@[i] < k,
            forall|m: int| 0 <= m < k && is_neighbor_edge(rels@, m, entity, min_strength) ==> out@.contains(m as usize),
            forall|i: int, j: int| 0 <= i < j < out@.len() ==> out@[i] < out@[j],
        decreases rels@.len() - k,
    {
        let r = &rels[k];
        if (r.source_entity_id == entity || r.target_entity_id == entity) && r.strength >= min_strength {
            let ghost before = out@;
            out.push(k);
            proof {
                assert forall|m: int| 0 <= m < k + 1 && is_neighbor_edge(rels@, m, entity, min_strength) implies out@.contains(m as usize) by {
                    if m < k {
                        let idx = choose|idx: int| 0 <= idx < before.len() && before[idx] == m as usize;
                        assert(out@[idx] == m as usize);
                    } else {
                        assert(out@[before.len() as int] == k);
                    }
                }
            }
        } else {
            proof {
                assert forall|m: int| 0 <= m < k + 1 && is_neighbor_edge(rels@, m, entity, min_strength) implies out@.contains(m as usize) by {
                    if m == k as int {
                        assert(false);
                    }
                }
            }
        }
        k += 1;
    }
    out
}

/// The ids the search ranges over: the start, then both ends of every edge
/// in order.
pub open spec fn node_list_ok(nodes: Seq<u64>, start: u64, rels: Seq<EntityRelation>) -> bool {
    &&& nodes.len() == 1 + 2 * rels.len()
    &&& nodes[0] == start
    &&& forall|k: int| 0 <= k < rels.len() ==> nodes[1 + 2 * k] == (#[trigger] rels[k]).source_entity_id
        && nodes[2 + 2 * k] == rels[k].target_entity_id
}

/// The first position from `i` on that holds `x`, or the length.
pub open spec fn first_pos(nodes: Seq<u64>, x: u64, i: int) -> int
    decreases nodes.len() - i,
{
    if i < 0 || i >= nodes.len() { nodes.len() as int } else if nodes[i] == x { i } else { first_pos(nodes, x, i + 1) }
}

proof fn lemma_first_pos(nodes: Seq<u64>, x: u64, i: int, j: int)
    requires
        0 <= i <= j < nodes.len(),
        nodes[j] == x,
    ensures
        i <= first_pos(nodes, x, i) <= j,
        nodes[first_pos(nodes, x, i)] == x,
    decreases j - i,
{
    if nodes[i] != x {
        lemma_first_pos(nodes, x, i + 1, j);
    }
}

proof fn lemma_first_pos_found(nodes: Seq<u64>, x: u64, i: int)
    requires
        0 <= i <= nodes.len(),
    ensures
        first_pos(nodes, x, i) < nodes.len() ==> nodes[first_pos(nodes, x, i)] == x,
        i <= first_pos(nodes, x, i),
    decreases nodes.len() - i,
{
    if i < nodes.len() && nodes[i] != x {
        lemma_first_pos_found(nodes, x, i + 1);
    }
}

/// A walk of `rels` from `start`.
pub open spec fn walk_from(rels: Seq<EntityRelation>, p: Seq<u64>, start: u64) -> bool {
    p.len() >= 1 && p[0] == start && is_walk(rels, p)
}

/// Both ends of edge `k` are listed among the nodes, first at the
/// positions `first_pos` gives.
proof fn lemma_edge_listed(nodes: Seq<u64>, start: u64, rels: Seq<EntityRelation>, k: int)
    requires
        node_list_ok(nodes, start, rels),
        0 <= k < rels.len(),
    ensures
        0 <= first_pos(nodes, rels[k].source_entity_id, 0) <= 1 + 2 * k,
        0 <= first_pos(nodes, rels[k].target_entity_id, 0) <= 2 + 2 * k,
        nodes[first_pos(nodes, rels[k].source_entity_id, 0)] == rels[k].source_entity_id,
        nodes[first_pos(nodes, rels[k].target_entity_id, 0)] == rels[k].target_entity_id,
{
    assert(nodes[1 + 2 * k] == rels[k].source_entity_id);
    lemma_first_pos(nodes, rels[k].source_entity_id, 0, 1 + 2 * k);
    lemma_first_pos(nodes, rels[k].target_entity_id, 0, 2 + 2 * k);
}

/// The distance recorded for id `x`: at its first position.
pub open spec fn dist_of(nodes: Seq<u64>, dist: Seq<usize>, x: u64) -> usize {
    dist[first_pos(nodes, x, 0)]
}

/// Edge `k` is relaxed: in both directions, a reached end puts the other
/// end at most one step farther.
pub open spec fn relaxed(nodes: Seq<u64>, dist: Seq<usize>, rels: Seq<EntityRelation>, k: int) -> bool {
    let s = dist_of(nodes, dist, rels[k].source_entity_id);
    let t = dist_of(nodes, dist, rels[k].target_entity_id);
    (s != usize::MAX ==> t as int <= s + 1) && (t != usize::MAX ==> s as int <= t + 1)
}

/// Edge `k` is relaxed against the distances `before`.
pub open spec fn relaxed_from(nodes: Seq<u64>, before: Seq<usize>, dist: Seq<usize>, rels: Seq<EntityRelation>, k: int) -> bool {
    let s0 = dist_of(nodes, before, rels[k].source_entity_id);
    let t0 = dist_of(nodes, before, rels[k].target_entity_id);
    (s0 != usize::MAX ==> dist_of(nodes, dist, rels[k].target_entity_id) as int <= s0 + 1)
        && (t0 != usize::MAX ==> dist_of(nodes, dist, rels[k].source_entity_id) as int <= t0 + 1)
}

/// Every reached node but the start was reached from a closer node over an
/// edge, and no reached node lies farther than `bound`.
pub open spec fn parents_ok(nodes: Seq<u64>, dist: Seq<usize>, parent: Seq<usize>, rels: Seq<EntityRelation>, bound: int) -> bool {
    &&& dist.len() == nodes.len()
    &&& parent.len() == nodes.len()
    &&& dist[0] == 0
    &&& forall|i: int| 0 <= i < nodes.len() && #[trigger] dist[i] != usize::MAX ==> dist[i] <= bound
    &&& forall|i: int| 0 < i < nodes.len() && #[trigger] dist[i] != usize::MAX ==> {
        &&& parent[i] < nodes.len()
        &&& dist[parent[i] as int] < dist[i]
        &&& adjacent(rels, nodes[parent[i] as int], nodes[i])
    }
}

/// Walks of at most `d` edges from the start end at ids no farther than the
/// walk's length.
pub open spec fn reaches_within(nodes: Seq<u64>, dist: Seq<usize>, rels: Seq<EntityRelation>, start: u64, d: int) -> bool {
    forall|p: Seq<u64>| walk_from(rels, p, start) && p.len() <= d + 1 ==> {
        let x = #[trigger] dist_of(nodes, dist, p.last());
        x != usize::MAX && x as int <= p.len() - 1
    }
}

/// When every edge is relaxed, every walk from the start ends no farther
/// than its length.
proof fn lemma_fixpoint_reaches(nodes: Seq<u64>, dist: Seq<usize>, rels: Seq<EntityRelation>, start: u64, bound: int, p: Seq<u64>)
    requires
        node_list_ok(nodes, start, rels),
        dist.len() == nodes.len(),
        dist[0] == 0,
        bound < usize::MAX - 1,
        forall|i: int| 0 <= i < nodes.len() && #[trigger] dist[i] != usize::MAX ==> dist[i] <= bound,
        forall|k: int| 0 <= k < rels.len() ==> #[trigger] relaxed(nodes, dist, rels, k),
        walk_from(rels, p, start),
    ensures
        dist_of(nodes, dist, p.last()) != usize::MAX,
        dist_of(nodes, dist, p.last()) as int <= p.len() - 1,
    decreases p.len(),
{
    if p.len() == 1 {
        lemma_first_pos(nodes, start, 0, 0);
    } else {
        let q = p.drop_last();
        assert forall|i: int| 0 <= i < q.len() - 1 implies #[trigger] adjacent(rels, q[i], q[i + 1]) by {
            assert(adjacent(rels, p[i], p[i + 1]));
        }
        lemma_fixpoint_reaches(nodes, dist, rels, start, bound, q);
        let y = q.last();
        let x = p.last();
        let i = p.len() - 2;
        assert(adjacent(rels, p[i], p[i + 1]));
        assert(p[i] == y && p[i + 1] == x);
        let k = choose|k: int| joins(rels, k, y, x);
        lemma_edge_listed(nodes, start, rels, k);
        assert(relaxed(nodes, dist, rels, k));
        let dy = dist_of(nodes, dist, y);
        let fy = first_pos(nodes, y, 0);
        assert(fy < nodes.len());
        assert(dist[fy] != usize::MAX);
        assert(dy <= bound);
        if rels[k].source_entity_id == y && rels[k].target_entity_id == x {
            assert(dist_of(nodes, dist, x) as int <= dy + 1);
        } else {
            assert(rels[k].source_entity_id == x && rels[k].target_entity_id == y);
            assert(dist_of(nodes, dist, x) as int <= dy + 1);
        }
    }
}

/// One round of relaxation against the distances `before` reaches one edge
/// farther.
proof fn lemma_round_extends(nodes: Seq<u64>, before: Seq<usize>, dist: Seq<usize>, rels: Seq<EntityRelation>, start: u64, d: int)
    requires
        node_list_ok(nodes, start, rels),
        before.len() == nodes.len(),
        dist.len() == nodes.len(),
        0 <= d < usize::MAX - 2,
        forall|j: int| 0 <= j < nodes.len() && #[trigger] before[j] != usize::MAX ==> before[j] <= d,
        reaches_within(nodes, before, rels, start, d),
        forall|j: int| 0 <= j < nodes.len() ==> #[trigger] dist[j] <= before[j],
        forall|k2: int| 0 <= k2 < rels.len() ==> #[trigger] relaxed_from(nodes, before, dist, rels, k2),
    ensures
        reaches_within(nodes, dist, rels, start, d + 1),
{
    assert forall|p: Seq<u64>| walk_from(rels, p, start) && p.len() <= d + 2 implies {
        let x = #[trigger] dist_of(nodes, dist, p.last());
        x != usize::MAX && x as int <= p.len() - 1
    } by {
        lemma_walk_end_listed(nodes, start, rels, p);
        let fx = first_pos(nodes, p.last(), 0);
        assert(dist[fx] <= before[fx]);
        if p.len() <= d + 1 {
            assert(dist_of(nodes, before, p.last()) != usize::MAX);
        } else {
            let q = p.drop_last();
            assert forall|i: int| 0 <= i < q.len() - 1 implies #[trigger] adjacent(rels, q[i], q[i + 1]) by {
                assert(adjacent(rels, p[i], p[i + 1]));
            }
            assert(walk_from(rels, q, start));
            assert(dist_of(nodes, before, q.last()) != usize::MAX);
            let ii = p.len() - 2;
            let ya = p[ii];
            let xb = p[ii + 1];
            assert(adjacent(rels, p[ii], p[ii + 1]));
            assert(ya == q.last() && xb == p.last());
            let k2 = choose|k2: int| joins(rels, k2, ya, xb);
            assert(relaxed_from(nodes, before, dist, rels, k2));
            lemma_edge_listed(nodes, start, rels, k2);
        }
    }
}

/// After the search: walks of at most `max_depth` edges reach their ends.
proof fn lemma_search_complete(nodes: Seq<u64>, dist: Seq<usize>, rels: Seq<EntityRelation>, start: u64, d: int, max_depth: int, all_relaxed: bool)
    requires
        node_list_ok(nodes, start, rels),
        dist.len() == nodes.len(),
        dist[0] == 0,
        0 <= d <= max_depth < usize::MAX - 1,
        forall|j: int| 0 <= j < nodes.len() && #[trigger] dist[j] != usize::MAX ==> dist[j] <= d,
        reaches_within(nodes, dist, rels, start, d),
        !all_relaxed ==> d == max_depth,
        all_relaxed ==> forall|k2: int| 0 <= k2 < rels.len() ==> #[trigger] relaxed(nodes, dist, rels, k2),
    ensures
        forall|p: Seq<u64>| walk_from(rels, p, start) && p.len() <= max_depth + 1 ==> {
            let x = #[trigger] dist_of(nodes, dist, p.last());
            x != usize::MAX && x as int <= p.len() - 1
        },
{
    assert forall|p: Seq<u64>| walk_from(rels, p, start) && p.len() <= max_depth + 1 implies {
        let x = #[trigger] dist_of(nodes, dist, p.last());
        x != usize::MAX && x as int <= p.len() - 1
    } by {
        if all_relaxed {
            lemma_fixpoint_reaches(nodes, dist, rels, start, d, p);
        }
    }
}

/// Walks back from the node at position `idx` to the start.
fn trace_back(rels: &[EntityRelation], nodes: &Vec<u64>, dist: &Vec<usize>, parent: &Vec<usize>, idx: usize, start: u64, Ghost(bound): Ghost<int>) -> (r: Vec<u64>)
    requires
        parents_ok(nodes@, dist@, parent@, rels@, bound),
        nodes@.len() >= 1,
        nodes@[0] == start,
        idx < nodes@.len(),
        dist@[idx as int] != usize::MAX,
    ensures
        r@.len() <= dist@[idx as int] + 1,
        r@.len() >= 1,
        r@[0] == start,
        r@.last() == nodes@[idx as int],
        is_walk(rels@, r@),
{
    let mut rev: Vec<u64> = vec![nodes[idx]];
    let mut cur: usize = idx;
    while cur != 0
        invariant
            parents_ok(nodes@, dist@, parent@, rels@, bound),
            nodes@[0] == start,
            cur < nodes@.len(),
            idx < nodes@.len(),
            dist@[cur as int] != usize::MAX,
            rev@.len() >= 1,
            rev@[0] == nodes@[idx as int],
            rev@.last() == nodes@[cur as int],
            rev@.len() + dist@[cur as int] <= dist@[idx as int] + 1,
            forall|i: int| 0 <= i < rev@.len() - 1 ==> #[trigger] adjacent(rels@, rev@[i + 1], rev@[i]),
        decreases dist@[cur as int],
    {
        let p = parent[cur];
        let ghost before = rev@;
        rev.push(nodes[p]);
        proof {
            assert forall|i: int| 0 <= i < rev@.len() - 1 implies #[trigger] adjacent(rels@, rev@[i + 1], rev@[i]) by {
                if i < before.len() - 1 {
                    assert(rev@[i] == before[i] && rev@[i + 1] == before[i + 1]);
                } else {
                    assert(rev@[i] == nodes@[cur as int]);
                    assert(rev@[i + 1] == nodes@[p as int]);
                }
            }
        }
        cur = p;
    }
    let n = rev.len();
    let mut out: Vec<u64> = Vec::new();
    let mut i: usize = n;
    while i > 0
        invariant
            i <= n,
            n == rev@.len(),
            out@.len() == n - i,
            forall|j: int| 0 <= j < out@.len() ==> out@[j] == rev@[n - 1 - j],
        decreases i,
    {
        i -= 1;
        out.push(rev[i]);
    }
    proof {
        assert forall|j: int| 0 <= j < out@.len() - 1 implies #[trigger] adjacent(rels@, out@[j], out@[j + 1]) by {
            let a = n - 2 - j;
            assert(adjacent(rels@, rev@[a + 1], rev@[a]));
            assert(rev@[a + 1] == out@[j]);
            assert(rev@[a] == out@[j + 1]);
        }
    }
    out
}

fn position_of(nodes: &Vec<u64>, x: u64) -> (r: usize)
    ensures
        r == first_pos(nodes@, x, 0),
{
    let mut i: usize = 0;
    while i < nodes.len()
        invariant
            i <= nodes@.len(),
            first_pos(nodes@, x, 0) == first_pos(nodes@, x, i as int),
        decreases nodes@.len() - i,
    {
        if nodes[i] == x {
            return i;
        }
        i += 1;
    }
    i
}

/// A shortest path from `start` to `end` over edges taken in either
/// direction, of at most `max_depth` edges; empty when there is none.
#[verifier::rlimit(60)]
pub fn find_path(rels: &[EntityRelation], start: u64, end: u64, max_depth: usize) -> (r: Vec<u64>)
    requires
        max_depth < usize::MAX - 1,
        rels@.len() < 0x1000_0000,
    ensures
        start == end ==> r@ == seq![start],
        r@.len() > 0 ==> r@[0] == start && r@.last() == end && is_walk(rels@, r@) && r@.len() <= max_depth + 1,
        forall|p: Seq<u64>| walk_from(rels@, p, start) && p.last() == end && p.len() <= max_depth + 1
            ==> r@.len() > 0 && r@.len() <= p.len(),
{
    if start == end {
        let r = vec![start];
        assert(r@ =~= seq![start]);
        proof {
            assert forall|p: Seq<u64>| walk_from(rels@, p, start) && p.last() == end && p.len() <= max_depth + 1
                implies r@.len() > 0 && r@.len() <= p.len() by {}
        }
        return r;
    }
    let mut nodes: Vec<u64> = vec![start];
    let mut k: usize = 0;
    while k < rels.len()
        invariant
            k <= rels@.len(),
            rels@.len() < 0x1000_0000,
            nodes@.len() == 1 + 2 * k,
            nodes@[0] == start,
            forall|m: int| 0 <= m < k ==> nodes@[1 + 2 * m] == (#[trigger] rels@[m]).source_entity_id
                && nodes@[2 + 2 * m] == rels@[m].target_entity_id,
        decreases rels@.len() - k,
    {
        nodes.push(rels[k].source_entity_id);
        nodes.push(rels[k].target_entity_id);
        k += 1;
    }
    let n = nodes.len();
    let mut dist: Vec<usize> = Vec::new();
    let mut parent: Vec<usize> = Vec::new();
    let mut i: usize = 0;
    while i < n
        invariant
            i <= n,
            n == nodes@.len(),
            dist@.len() == i,
            parent@.len() == i,
            forall|j: int| 0 <= j < i ==> #[trigger] dist@[j] == if j == 0 { 0usize } else { usize::MAX },
        decreases n - i,
    {
        dist.push(if i == 0 { 0 } else { usize::MAX });
        parent.push(0);
        i += 1;
    }
    proof {
        assert forall|p: Seq<u64>| walk_from(rels@, p, start) && p.len() <= 0 + 1 implies {
            let x = #[trigger] dist_of(nodes@, dist@, p.last());
            x != usize::MAX && x as int <= p.len() - 1
        } by {
            lemma_first_pos(nodes@, start, 0, 0);
        }
    }
    let mut d: usize = 0;
    let mut changed = true;
    while d < max_depth && changed
        invariant
            node_list_ok(nodes@, start, rels@),
            n == nodes@.len(),
            d <= max_depth,
            max_depth < usize::MAX - 1,
            parents_ok(nodes@, dist@, parent@, rels@, d as int),
            reaches_within(nodes@, dist@, rels@, start, d as int),
            !changed ==> forall|k2: int| 0 <= k2 < rels@.len() ==> #[trigger] relaxed(nodes@, dist@, rels@, k2),
        decreases max_depth - d, if changed { 1int } else { 0int },
    {
        let snapshot = dist.clone();
        let ghost before = dist@;
        assert(snapshot@ == before);
        changed = false;
        let mut k: usize = 0;
        while k < rels.len()
            invariant
                node_list_ok(nodes@, start, rels@),
                n == nodes@.len(),
                d < max_depth,
                max_depth < usize::MAX - 1,
                k <= rels@.len(),
                parents_ok(nodes@, dist@, parent@, rels@, d + 1),
                before.len() == n,
                reaches_within(nodes@, before, rels@, start, d as int),
                forall|j: int| 0 <= j < n ==> #[trigger] dist@[j] <= before[j],
                forall|k2: int| 0 <= k2 < k ==> #[trigger] relaxed_from(nodes@, before, dist@, rels@, k2),
                !changed ==> dist@ == before,
                snapshot@ == before,
                forall|j: int| 0 <= j < n && #[trigger] before[j] != usize::MAX ==> before[j] <= d,
            decreases rels@.len() - k,
        {
            let s = position_of(&nodes, rels[k].source_entity_id);
            let t = position_of(&nodes, rels[k].target_entity_id);
            proof {
                lemma_edge_listed(nodes@, start, rels@, k as int);
            }
            let ghost prev = dist@;
            if snapshot[s] != usize::MAX && snapshot[s] + 1 < dist[t] {
                let v = snapshot[s] + 1;
                dist.set(t, v);
                parent.set(t, s);
                changed = true;
                proof {
                    assert(joins(rels@, k as int, nodes@[s as int], nodes@[t as int]));
                }
            }
            let ghost mid = dist@;
            if snapshot[t] != usize::MAX && snapshot[t] + 1 < dist[s] {
                let v = snapshot[t] + 1;
                dist.set(s, v);
                parent.set(s, t);
                changed = true;
                proof {
                    assert(joins(rels@, k as int, nodes@[t as int], nodes@[s as int]));
                }
            }
            proof {
                assert forall|j: int| 0 <= j < n implies #[trigger] dist@[j] <= prev[j] by {}
                assert forall|k2: int| 0 <= k2 < k + 1 implies #[trigger] relaxed_from(nodes@, before, dist@, rels@, k2) by {
                    lemma_edge_listed(nodes@, start, rels@, k2);
                    if k2 < k as int {
                        assert(relaxed_from(nodes@, before, prev, rels@, k2));
                        let a = first_pos(nodes@, rels@[k2].source_entity_id, 0);
                        let b = first_pos(nodes@, rels@[k2].target_entity_id, 0);
                        assert(0 <= a < n && 0 <= b < n);
                        assert(dist@[a] <= prev[a]);
                        assert(dist@[b] <= prev[b]);
                    }
                }
            }
            k += 1;
        }
        proof {
            lemma_round_extends(nodes@, before, dist@, rels@, start, d as int);
            if !changed {
                assert forall|k2: int| 0 <= k2 < rels@.len() implies #[trigger] relaxed(nodes@, dist@, rels@, k2) by {
                    assert(relaxed_from(nodes@, before, dist@, rels@, k2));
                }
            }
        }
        d += 1;
    }
    proof {
        lemma_search_complete(nodes@, dist@, rels@, start, d as int, max_depth as int, !changed);
    }
    let t = position_of(&nodes, end);
    if t >= n || dist[t] == usize::MAX {
        proof {
            assert forall|p: Seq<u64>| walk_from(rels@, p, start) && p.last() == end && p.len() <= max_depth + 1
                implies false by {
                assert(dist_of(nodes@, dist@, p.last()) != usize::MAX);
                lemma_walk_end_listed(nodes@, start, rels@, p);
            }
        }
        return Vec::new();
    }
    let r = trace_back(rels, &nodes, &dist, &parent, t, start, Ghost(d as int));
    proof {
        lemma_first_pos_found(nodes@, end, 0);
        assert forall|p: Seq<u64>| walk_from(rels@, p, start) && p.last() == end && p.len() <= max_depth + 1
            implies r@.len() > 0 && r@.len() <= p.len() by {
            assert(dist_of(nodes@, dist@, p.last()) as int <= p.len() - 1);
        }
    }
    r
}

/// The end of a walk from the start is listed among the nodes.
proof fn lemma_walk_end_listed(nodes: Seq<u64>, start: u64, rels: Seq<EntityRelation>, p: Seq<u64>)
    requires
        node_list_ok(nodes, start, rels),
        walk_from(rels, p, start),
    ensures
        0 <= first_pos(nodes, p.last(), 0) < nodes.len(),
        nodes[first_pos(nodes, p.last(), 0)] == p.last(),
{
    if p.len() == 1 {
        lemma_first_pos(nodes, start, 0, 0);
    } else {
        let i = p.len() - 2;
        let a = p[i];
        let b = p[i + 1];
        assert(adjacent(rels, p[i], p[i + 1]));
        assert(b == p.last());
        let k = choose|k: int| joins(rels, k, a, b);
        lemma_edge_listed(nodes, start, rels, k);
    }
}

/// Event `e` falls in the window and its lowercased target mentions `name`.
pub open spec fn mentions(e: EventMemory, name: Seq<char>, window_start: i64) -> bool {
    e.timestamp >= window_start && seq_contains(lower_of(e.target@), name)
}

/// Among the first `n` events: how many mention the first name, the
/// second, and both.
pub open spec fn mention_counts(evs: Seq<EventMemory>, a: Seq<char>, b: Seq<char>, w: i64, n: int) -> (int, int, int)
    decreases n,
{
    if n <= 0 {
        (0, 0, 0)
    } else {
        let p = mention_counts(evs, a, b, w, n - 1);
        let e = evs[n - 1];
        let ma = mentions(e, a, w);
        let mb = mentions(e, b, w);
        (p.0 + if ma { 1int } else { 0 }, p.1 + if mb { 1int } else { 0 }, p.2 + if ma && mb { 1int } else { 0 })
    }
}

/// The co-occurrence strength of two names over `evs` since `w`: events
/// mentioning both over events mentioning either, in thousandths, zero when
/// either name is never mentioned.
pub open spec fn co_occurrence(evs: Seq<EventMemory>, a: Seq<char>, b: Seq<char>, w: i64) -> int {
    let c = mention_counts(evs, a, b, w, evs.len() as int);
    if c.0 == 0 || c.1 == 0 { 0 } else { c.2 * 1000 / (c.0 + c.1 - c.2) }
}

/// The co-occurrence strength of two lowercased entity names over the
/// events since `window_start`.
pub fn co_occurrence_strength(events: &[EventMemory], name1: &str, name2: &str, window_start: i64) -> (r: u64)
    requires
        events@.len() <= 0x1_0000_0000,
    ensures
        r == co_occurrence(events@, name1@, name2@, window_start),
        r <= 1000,
{
    let a = chars_of(name1);
    let b = chars_of(name2);
    let mut c1: u64 = 0;
    let mut c2: u64 = 0;
    let mut both: u64 = 0;
    let mut i: usize = 0;
    while i < events.len()
        invariant
            a@ == name1@,
            b@ == name2@,
            events@.len() <= 0x1_0000_0000,
            i <= events@.len(),
            (c1 as int, c2 as int, both as int) == mention_counts(events@, a@, b@, window_start, i as int),
            both <= c1,
            both <= c2,
            c1 <= i,
            c2 <= i,
        decreases events@.len() - i,
    {
        let e = &events[i];
        let (ma, mb) = if e.timestamp >= window_start {
            let t = lowercase(e.target.as_str());
            let tc = chars_of(t.as_str());
            (contains(tc.as_slice(), a.as_slice()), contains(tc.as_slice(), b.as_slice()))
        } else {
            (false, false)
        };
        if ma {
            c1 += 1;
        }
        if mb {
            c2 += 1;
        }
        if ma && mb {
            both += 1;
        }
        i += 1;
    }
    if c1 == 0 || c2 == 0 {
        return 0;
    }
    let either = c1 + c2 - both;
    proof {
        let x = both as int;
        let u = either as int;
        assert(x <= u);
        assert(x * 1000 / u <= 1000) by (nonlinear_arith)
            requires 0 <= x <= u, u >= 1;
    }
    both * 1000 / either
}


/// How many characters after 是 are searched for the second entity.
pub const IS_WINDOW: usize = 16;

/// A relation found in text between two named entities.
#[derive(Debug, Clone)]
pub struct ExtractedRelation {
    pub source: String,
    pub target: String,
    pub relation_type: RelationType,
    /// Thousandths.
    pub confidence: u32,
}

/// What an extracted relation says.
pub struct RelationView {
    pub source: Seq<char>,
    pub target: Seq<char>,
    pub relation_type: RelationType,
    pub confidence: int,
}

impl View for ExtractedRelation {
    type V = RelationView;

    open spec fn view(&self) -> RelationView {
        RelationView { source: self.source@, target: self.target@, relation_type: self.relation_type, confidence: self.confidence as int }
    }
}

/// The first position of 是 in `t`, or its length.
pub open spec fn first_is(t: Seq<char>, k: int) -> int
    decreases t.len() - k,
{
    if k < 0 || k >= t.len() || t[k] == '是' { if k < 0 { 0 } else { k } } else { first_is(t, k + 1) }
}

/// The relations one ordered pair of names gives: 是 with the first name
/// before it and the second within the window after it (belongs to, 0.7);
/// then `A属于B` (belongs to, 0.9), `A 位于 B` (located at, 0.9) and
/// `A位于B` (located at, 0.85) wherever they occur.
pub open spec fn pair_relations(t: Seq<char>, a: Seq<char>, b: Seq<char>) -> Seq<RelationView> {
    let p = first_is(t, 0);
    let end = if p + 1 + IS_WINDOW < t.len() { p + 1 + IS_WINDOW } else { t.len() as int };
    let is_rel = if p < t.len() && seq_contains(t.subrange(0, p), a) && seq_contains(t.subrange(p + 1, end), b) {
        seq![RelationView { source: a, target: b, relation_type: RelationType::BelongsTo, confidence: 700 }]
    } else {
        Seq::empty()
    };
    let r1 = if seq_contains(t, a + seq!['属', '于'] + b) {
        seq![RelationView { source: a, target: b, relation_type: RelationType::BelongsTo, confidence: 900 }]
    } else {
        Seq::empty()
    };
    let r2 = if seq_contains(t, a + seq![' ', '位', '于', ' '] + b) {
        seq![RelationView { source: a, target: b, relation_type: RelationType::LocatedAt, confidence: 900 }]
    } else {
        Seq::empty()
    };
    let r3 = if seq_contains(t, a + seq!['位', '于'] + b) {
        seq![RelationView { source: a, target: b, relation_type: RelationType::LocatedAt, confidence: 850 }]
    } else {
        Seq::empty()
    };
    is_rel + r1 + r2 + r3
}

/// Relations of the pairs `(i, j)`, `j` from `i + 1` up to `m`.
pub open spec fn row_relations(t: Seq<char>, names: Seq<String>, i: int, m: int) -> Seq<RelationView>
    decreases m - i,
{
    if m <= i + 1 {
        Seq::empty()
    } else {
        row_relations(t, names, i, m - 1) + pair_relations(t, names[i]@, names[m - 1]@)
    }
}

/// Relations of the pairs whose first name comes before `n`.
pub open spec fn pattern_relations(t: Seq<char>, names: Seq<String>, n: int) -> Seq<RelationView>
    decreases n,
{
    if n <= 0 {
        Seq::empty()
    } else {
        pattern_relations(t, names, n - 1) + row_relations(t, names, n - 1, names.len() as int)
    }
}

/// Weak "related to" edges between every pair, in pair order, for the rows
/// before `n`.
pub open spec fn commerce_relations(names: Seq<String>, n: int) -> Seq<RelationView>
    decreases n,
{
    if n <= 0 {
        Seq::empty()
    } else {
        commerce_relations(names, n - 1) + commerce_row(names, n - 1, names.len() as int)
    }
}

pub open spec fn commerce_row(names: Seq<String>, i: int, m: int) -> Seq<RelationView>
    decreases m - i,
{
    if m <= i + 1 {
        Seq::empty()
    } else {
        commerce_row(names, i, m - 1)
            + seq![RelationView { source: names[i]@, target: names[m - 1]@, relation_type: RelationType::RelatedTo, confidence: 500 }]
    }
}

/// Everything the rules find: the pattern relations of every pair, then,
/// when there are two names or more and the text speaks of buying or
/// selling, a weak relation for every pair.
pub open spec fn rule_relations(t: Seq<char>, names: Seq<String>) -> Seq<RelationView> {
    let n = names.len() as int;
    pattern_relations(t, names, n)
        + if n >= 2 && (seq_contains(t, seq!['买']) || seq_contains(t, seq!['卖'])) { commerce_relations(names, n) } else { Seq::empty() }
}

pub open spec fn views_of_relations(rs: Seq<ExtractedRelation>) -> Seq<RelationView> {
    rs.map_values(|r: ExtractedRelation| r@)
}

fn rel(a: &String, b: &String, relation_type: RelationType, confidence: u32) -> (r: ExtractedRelation)
    ensures
        r@ == (RelationView { source: a@, target: b@, relation_type, confidence: confidence as int }),
{
    ExtractedRelation { source: a.clone(), target: b.clone(), relation_type, confidence }
}

fn push_rel(out: &mut Vec<ExtractedRelation>, r: ExtractedRelation)
    ensures
        views_of_relations(final(out)@) == views_of_relations(old(out)@).push(r@),
{
    out.push(r);
    assert(views_of_relations(out@) =~= views_of_relations(old(out)@).push(r@));
}

fn glue(a: &[char], mid: &[char], b: &[char]) -> (r: Vec<char>)
    ensures
        r@ == a@ + mid@ + b@,
{
    let mut out: Vec<char> = Vec::new();
    let mut i: usize = 0;
    while i < a.len()
        invariant
            i <= a@.len(),
            out@ == a@.subrange(0, i as int),
        decreases a@.len() - i,
    {
        out.push(a[i]);
        i += 1;
        assert(out@ =~= a@.subrange(0, i as int));
    }
    let mut i: usize = 0;
    while i < mid.len()
        invariant
            i <= mid@.len(),
            out@ == a@ + mid@.subrange(0, i as int),
        decreases mid@.len() - i,
    {
        out.push(mid[i]);
        i += 1;
        assert(out@ =~= a@ + mid@.subrange(0, i as int));
    }
    let mut i: usize = 0;
    while i < b.len()
        invariant
            i <= b@.len(),
            out@ == a@ + mid@ + b@.subrange(0, i as int),
        decreases b@.len() - i,
    {
        out.push(b[i]);
        i += 1;
        assert(out@ =~= a@ + mid@ + b@.subrange(0, i as int));
    }
    assert(a@.subrange(0, a@.len() as int) =~= a@);
    assert(mid@.subrange(0, mid@.len() as int) =~= mid@);
    assert(b@.subrange(0, b@.len() as int) =~= b@);
    out
}

fn slice_of(s: &[char], lo: usize, hi: usize) -> (r: Vec<char>)
    requires
        lo <= hi <= s@.len(),
    ensures
        r@ == s@.subrange(lo as int, hi as int),
{
    let mut out: Vec<char> = Vec::new();
    let mut i: usize = lo;
    while i < hi
        invariant
            lo <= i <= hi,
            hi <= s@.len(),
            out@ == s@.subrange(lo as int, i as int),
        decreases hi - i,
    {
        out.push(s[i]);
        i += 1;
        assert(out@ =~= s@.subrange(lo as int, i as int));
    }
    out
}

/// The relations of one pair, appended to `out`.
fn add_pair_relations(out: &mut Vec<ExtractedRelation>, t: &[char], a: &String, b: &String)
    ensures
        views_of_relations(final(out)@) == views_of_relations(old(out)@) + pair_relations(t@, a@, b@),
{
    let ac = chars_of(a.as_str());
    let bc = chars_of(b.as_str());
    let mut p: usize = 0;
    while p < t.len() && t[p] != '是'
        invariant
            p <= t@.len(),
            first_is(t@, 0) == first_is(t@, p as int),
        decreases t@.len() - p,
    {
        p += 1;
    }
    let ghost start = views_of_relations(out@);
    let ghost pr = pair_relations(t@, a@, b@);
    if p < t.len() {
        let end = if t.len() - (p + 1) > IS_WINDOW { p + 1 + IS_WINDOW } else { t.len() };
        let before = slice_of(t, 0, p);
        let after = slice_of(t, p + 1, end);
        if contains(before.as_slice(), ac.as_slice()) && contains(after.as_slice(), bc.as_slice()) {
            push_rel(out, rel(a, b, RelationType::BelongsTo, 700));
        }
    }
    let ghost after_is = views_of_relations(out@);
    let p1 = glue(ac.as_slice(), &['属', '于'], bc.as_slice());

    if contains(t, p1.as_slice()) {
        push_rel(out, rel(a, b, RelationType::BelongsTo, 900));
    }
    let p2 = glue(ac.as_slice(), &[' ', '位', '于', ' '], bc.as_slice());
    if contains(t, p2.as_slice()) {
        push_rel(out, rel(a, b, RelationType::LocatedAt, 900));
    }
    let p3 = glue(ac.as_slice(), &['位', '于'], bc.as_slice());
    if contains(t, p3.as_slice()) {
        push_rel(out, rel(a, b, RelationType::LocatedAt, 850));
    }
    proof {
        assert(views_of_relations(out@) =~= start + pr);
    }
}


/// The relations the rules find in `text` between the named entities, in
/// the order of the pairs.
pub fn extract_relations_rule_based(text: &str, names: &Vec<String>) -> (r: Vec<ExtractedRelation>)
    ensures
        views_of_relations(r@) == rule_relations(text@, names@),
{
    let tv = chars_of(text);
    let t = tv.as_slice();
    let n = names.len();
    let mut out: Vec<ExtractedRelation> = Vec::new();
    let mut i: usize = 0;
    while i < n
        invariant
            n == names@.len(),
            t@ == text@,
            i <= n,
            views_of_relations(out@) == pattern_relations(text@, names@, i as int),
        decreases n - i,
    {
        let ghost row_start = views_of_relations(out@);
        let mut j: usize = i + 1;
        while j < n
            invariant
                n == names@.len(),
                t@ == text@,
                i < n,
                i + 1 <= j <= n || j == i + 1,
                views_of_relations(out@) == row_start + row_relations(text@, names@, i as int, j as int),
            decreases n - j,
        {
            let ghost before = views_of_relations(out@);
            add_pair_relations(&mut out, t, &names[i], &names[j]);
            proof {
                assert(row_relations(text@, names@, i as int, j + 1)
                    == row_relations(text@, names@, i as int, j as int) + pair_relations(text@, names@[i as int]@, names@[j as int]@));
                assert(views_of_relations(out@) =~= row_start + row_relations(text@, names@, i as int, j + 1));
            }
            j += 1;
        }
        proof {
            assert(row_relations(text@, names@, i as int, n as int) == row_relations(text@, names@, i as int, j as int)) by {
                if i + 1 >= n {
                    assert(row_relations(text@, names@, i as int, n as int) =~= Seq::<RelationView>::empty());
                    assert(row_relations(text@, names@, i as int, j as int) =~= Seq::<RelationView>::empty());
                }
            }
            assert(views_of_relations(out@) =~= pattern_relations(text@, names@, i + 1));
        }
        i += 1;
    }
    let ghost after_patterns = views_of_relations(out@);
    let buy = vec!['买'];
    let sell = vec!['卖'];
    assert(buy@ =~= seq!['买']);
    assert(sell@ =~= seq!['卖']);
    if n >= 2 && (contains(t, buy.as_slice()) || contains(t, sell.as_slice())) {
        let mut i: usize = 0;
        while i < n
            invariant
                n == names@.len(),
                i <= n,
                views_of_relations(out@) == after_patterns + commerce_relations(names@, i as int),
            decreases n - i,
        {
            let ghost row_start = views_of_relations(out@);
            let mut j: usize = i + 1;
            while j < n
                invariant
                    n == names@.len(),
                    i < n,
                    i + 1 <= j,
                    j <= n || j == i + 1,
                    views_of_relations(out@) == row_start + commerce_row(names@, i as int, j as int),
                decreases n - j,
            {
                push_rel(&mut out, rel(&names[i], &names[j], RelationType::RelatedTo, 500));
                proof {
                    assert(views_of_relations(out@) =~= row_start + commerce_row(names@, i as int, j + 1));
                }
                j += 1;
            }
            proof {
                assert(commerce_row(names@, i as int, n as int) == commerce_row(names@, i as int, j as int)) by {
                    if i + 1 >= n {
                        assert(commerce_row(names@, i as int, n as int) =~= Seq::<RelationView>::empty());
                        assert(commerce_row(names@, i as int, j as int) =~= Seq::<RelationView>::empty());
                    }
                }
                assert(views_of_relations(out@) =~= after_patterns + commerce_relations(names@, i + 1));
            }
            i += 1;
        }
    } else {
        assert(views_of_relations(out@) =~= after_patterns + Seq::<RelationView>::empty());
    }
    out
}

} // verus!
