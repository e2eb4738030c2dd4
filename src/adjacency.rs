use vstd::prelude::*;
use crate::edge::{ends, Edge};

verus! {

/// For each node id, the ids of the edges incident to it, in edge order.
pub struct AdjacencyIndex {
    pub entries: Vec<Vec<u32>>,
}

/// The ids of the edges of `ends` that touch `node`, in order; an edge whose
/// two endpoints are `node` is listed twice.
pub open spec fn incident(ends: Seq<(u32, u32)>, node: int) -> Seq<u32>
    decreases ends.len(),
{
    if ends.len() == 0 {
        seq![]
    } else {
        let e = (ends.len() - 1) as u32;
        extended(incident(ends.drop_last(), node), node, e, ends.last())
    }
}

/// `entry` with edge `e` between `end.0` and `end.1` recorded, as seen from `node`.
pub open spec fn extended(entry: Seq<u32>, node: int, e: u32, end: (u32, u32)) -> Seq<u32> {
    let p = if end.0 == node { entry.push(e) } else { entry };
    if end.1 == node { p.push(e) } else { p }
}

/// Every edge id under `node` names an edge that touches it, and every edge
/// that touches `node` is listed under it.
pub proof fn lemma_incident_members(ends: Seq<(u32, u32)>, node: int)
    requires
        ends.len() <= u32::MAX + 1,
    ensures
        forall|t: int|
            0 <= t < incident(ends, node).len() ==> {
                let e = #[trigger] incident(ends, node)[t] as int;
                0 <= e < ends.len() && (ends[e].0 == node || ends[e].1 == node)
            },
        forall|e: int|
            0 <= e < ends.len() && (ends[e].0 == node || ends[e].1 == node) ==> incident(
                ends,
                node,
            ).contains(e as u32),
    decreases ends.len(),
{
    if ends.len() > 0 {
        let pre = ends.drop_last();
        lemma_incident_members(pre, node);
        let e = (ends.len() - 1) as u32;
        let p = incident(pre, node);
        assert forall|t: int| 0 <= t < incident(ends, node).len() implies {
            let f = #[trigger] incident(ends, node)[t] as int;
            0 <= f < ends.len() && (ends[f].0 == node || ends[f].1 == node)
        } by {
            if t < p.len() {
                let f = p[t] as int;
                assert(incident(ends, node)[t] == p[t]);
                assert(pre[f] == ends[f]);
            } else {
                assert(incident(ends, node)[t] == e);
            }
        }
        assert forall|f: int| 0 <= f < ends.len() && (ends[f].0 == node || ends[f].1 == node) implies incident(
            ends,
            node,
        ).contains(f as u32) by {
            let p = incident(pre, node);
            let p1 = if ends.last().0 == node { p.push(e) } else { p };
            if f < ends.len() - 1 {
                assert(pre[f] == ends[f]);
                let k = choose|k: int| 0 <= k < p.len() && p[k] == f as u32;
                assert(p1[k] == f as u32);
                assert(incident(ends, node)[k] == f as u32);
            } else {
                if ends.last().0 == node {
                    assert(incident(ends, node)[p.len() as int] == f as u32);
                } else {
                    assert(incident(ends, node)[p1.len() as int] == f as u32);
                }
            }
        }
    }
}

impl AdjacencyIndex {
    pub open spec fn entry(&self, node: int) -> Seq<u32> {
        if 0 <= node < self.entries@.len() {
            self.entries@[node]@
        } else {
            seq![]
        }
    }

    /// The index lists exactly the incident edges of `ends` under each node.
    pub open spec fn models(&self, ends: Seq<(u32, u32)>) -> bool {
        &&& ends.len() <= u32::MAX + 1
        &&& forall|node: int| #[trigger] self.entry(node) == incident(ends, node)
    }

    /// An index of no edges.
    pub fn new() -> (r: Self)
        ensures
            r.models(seq![]),
    {
        AdjacencyIndex { entries: Vec::new() }
    }

    /// Records edge `edge_id` between `a_id` and `b_id`: its id goes at the
    /// end of the entry of `a_id`, then at the end of the entry of `b_id`.
    pub fn add(&mut self, edge_id: u32, a_id: u32, b_id: u32)
        ensures
            forall|node: int|
                #[trigger] final(self).entry(node) == extended(old(self).entry(node), node, edge_id, (a_id, b_id)),
    {
        let top = if a_id < b_id { b_id } else { a_id };
        while self.entries.len() <= top as usize
            invariant
                forall|node: int| #[trigger] self.entry(node) == old(self).entry(node),
            decreases top as usize + 1 - self.entries.len(),
        {
            let ghost before = *self;
            self.entries.push(Vec::new());
            assert forall|node: int| #[trigger] self.entry(node) == before.entry(node) by {
                if node == self.entries@.len() - 1 {
                    assert(self.entries@[node]@ =~= Seq::<u32>::empty());
                }
            }
        }
        let ghost mid = *self;
        self.entries[a_id as usize].push(edge_id);
        let ghost mid2 = *self;
        assert(mid2.entry(a_id as int) =~= mid.entry(a_id as int).push(edge_id));
        assert(forall|node: int| node != a_id ==> #[trigger] mid2.entry(node) == mid.entry(node));
        self.entries[b_id as usize].push(edge_id);
        assert(self.entry(b_id as int) =~= mid2.entry(b_id as int).push(edge_id));
        assert(forall|node: int| node != b_id ==> #[trigger] self.entry(node) == mid2.entry(node));
    }

    /// The index of `edges`: edge `k` listed under both of its endpoints.
    pub fn build<V>(edges: &Vec<Edge<V>>) -> (r: Self)
        requires
            edges@.len() <= u32::MAX,
        ensures
            r.models(ends(edges@)),
    {
        let mut r = AdjacencyIndex::new();
        let mut k: usize = 0;
        while k < edges.len()
            invariant
                0 <= k <= edges@.len() <= u32::MAX,
                r.models(ends(edges@).take(k as int)),
            decreases edges@.len() - k,
        {
            let ghost pre = ends(edges@).take(k as int);
            r.add(k as u32, edges[k].a_id, edges[k].b_id);
            proof {
                let next = ends(edges@).take(k + 1);
                assert(next.drop_last() =~= pre);
                assert(next.last() == (edges@[k as int].a_id, edges@[k as int].b_id));
                assert forall|node: int| #[trigger] r.entry(node) == incident(next, node) by {}
            }
            k += 1;
        }
        assert(ends(edges@).take(k as int) =~= ends(edges@));
        r
    }
}

} // verus!
