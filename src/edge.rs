use vstd::prelude::*;

verus! {

/// An edge between two nodes, with a cached copy of each endpoint's position.
pub struct Edge<V> {
    pub a_id: u32,
    pub b_id: u32,
    pub a_center: V,
    pub b_center: V,
}

/// The endpoints of each edge, in edge order.
pub open spec fn ends<V>(edges: Seq<Edge<V>>) -> Seq<(u32, u32)> {
    edges.map_values(|e: Edge<V>| (e.a_id, e.b_id))
}

/// The endpoint of `end` opposite to `node` (the first one unless `node` is it).
pub open spec fn opposite(end: (u32, u32), node: int) -> int {
    if end.0 == node {
        end.1 as int
    } else {
        end.0 as int
    }
}

impl<V: Copy> Edge<V> {
    /// An edge from node `a_id` at `a` to node `b_id` at `b`.
    pub fn from_nodes(a: V, a_id: u32, b: V, b_id: u32) -> (r: Self)
        ensures
            r.a_id == a_id,
            r.b_id == b_id,
            r.a_center == a,
            r.b_center == b,
    {
        Edge { a_id, b_id, a_center: a, b_center: b }
    }

    /// The node at the other end from `node`.
    pub fn other_end(&self, node: u32) -> (r: u32)
        ensures
            r == opposite((self.a_id, self.b_id), node as int),
    {
        if self.a_id == node {
            self.b_id
        } else {
            self.a_id
        }
    }
}

} // verus!
