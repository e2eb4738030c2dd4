use vstd::prelude::*;
use crate::adjacency::{incident, AdjacencyIndex};
use crate::edge::{ends, Edge};
use crate::input::{DragKind, InputState};
use crate::physics::{synced_edge, Object, Physics};
use crate::schedule::{ends_within, tick_outcome};

verus! {

/// A graph being laid out: the nodes' positions, the edges, the index of
/// incident edges, the simulated objects and the pointer's state.
pub struct State<V, S> {
    pub nodes: Vec<V>,
    pub edges: Vec<Edge<V>>,
    pub index: AdjacencyIndex,
    pub physics: Physics<V, S>,
    pub input: InputState,
    /// The strength that new nodes get.
    pub strength: S,
}

impl<V: Copy, S: Copy> State<V, S> {
    /// Nodes and objects are index-aligned, every edge joins two nodes, and
    /// the index lists exactly the edges.
    pub open spec fn wf(&self) -> bool {
        &&& self.physics.wf()
        &&& self.nodes@.len() == self.physics.objs@.len()
        &&& self.edges@.len() <= u32::MAX
        &&& self.index.models(ends(self.edges@))
        &&& ends_within(ends(self.edges@), self.nodes@.len())
    }

    /// A layout of `nodes` joined by `edges`, every node of strength `strength`.
    pub fn new(nodes: Vec<V>, edges: Vec<Edge<V>>, strength: S) -> (r: Self)
        requires
            nodes@.len() <= u32::MAX,
            edges@.len() <= u32::MAX,
            forall|e: int| 0 <= e < edges@.len() ==> (#[trigger] edges@[e]).a_id < nodes@.len() && edges@[e].b_id < nodes@.len(),
        ensures
            r.wf(),
            r.nodes@ == nodes@,
            r.edges@ == edges@,
            forall|k: int|
                0 <= k < nodes@.len() ==> #[trigger] r.physics.objs@[k] == (Object { i: k as u32, pos: nodes@[k], strength }),
            r.input.dragging is None,
            !r.input.is_ctrl_pressed,
            !r.input.is_lalt_pressed,
    {
        let physics = Physics::new(&nodes, strength);
        let index = AdjacencyIndex::build(&edges);
        assert forall|e: int| 0 <= e < ends(edges@).len() implies (#[trigger] ends(edges@)[e]).0 < nodes@.len() && ends(edges@)[e].1 < nodes@.len() by {
            assert(ends(edges@)[e] == (edges@[e].a_id, edges@[e].b_id));
        }
        State { nodes, edges, index, physics, input: InputState::default(), strength }
    }

    /// Adds a node at `position`, with its object at the same index.
    pub fn add_node(&mut self, position: V) -> (id: u32)
        requires
            old(self).wf(),
            old(self).nodes@.len() < u32::MAX,
        ensures
            final(self).wf(),
            id == old(self).nodes@.len(),
            final(self).nodes@.len() == final(self).physics.objs@.len(),
            final(self).physics.objs@[id as int].i == id,
            forall|k: int| 0 <= k <= id ==> #[trigger] final(self).physics.objs@[k].i == k,
            final(self).nodes@ == old(self).nodes@.push(position),
            final(self).physics.objs@ == old(self).physics.objs@.push(
                Object { i: id, pos: position, strength: old(self).strength },
            ),
            final(self).edges@ == old(self).edges@,
            final(self).index == old(self).index,
            final(self).input == old(self).input,
    {
        let id = self.physics.push(position, self.strength);
        self.nodes.push(position);
        proof {
            let en = ends(self.edges@);
            assert forall|e: int| 0 <= e < en.len() implies (#[trigger] en[e]).0 < self.nodes@.len() && en[e].1
                < self.nodes@.len() by {
                assert(ends_within(en, old(self).nodes@.len()));
            }
        }
        id
    }

    /// Adds the edge from node `a_id` to node `b_id`, its caches at the two
    /// nodes' positions, and indexes it.
    pub fn add_edge(&mut self, a_id: u32, b_id: u32) -> (id: u32)
        requires
            old(self).wf(),
            a_id < old(self).nodes@.len(),
            b_id < old(self).nodes@.len(),
            old(self).edges@.len() < u32::MAX,
        ensures
            final(self).wf(),
            id == old(self).edges@.len(),
            final(self).edges@ == old(self).edges@.push(
                Edge {
                    a_id,
                    b_id,
                    a_center: old(self).nodes@[a_id as int],
                    b_center: old(self).nodes@[b_id as int],
                },
            ),
            final(self).nodes@ == old(self).nodes@,
            final(self).physics == old(self).physics,
            final(self).input == old(self).input,
    {
        let id = self.edges.len() as u32;
        let edge = Edge::from_nodes(self.nodes[a_id as usize], a_id, self.nodes[b_id as usize], b_id);
        let ghost en0 = ends(self.edges@);
        self.edges.push(edge);
        self.index.add(id, a_id, b_id);
        proof {
            let en = ends(self.edges@);
            assert(en =~= en0.push((a_id, b_id)));
            assert(en.drop_last() =~= en0);
            assert forall|node: int| #[trigger] self.index.entry(node) == incident(en, node) by {
                assert(old(self).index.entry(node) == incident(en0, node));
            }
            assert forall|e: int| 0 <= e < en.len() implies (#[trigger] en[e]).0 < self.nodes@.len() && en[e].1
                < self.nodes@.len() by {
                if e < en0.len() {
                    assert(en[e] == en0[e]);
                }
            }
        }
        id
    }

    pub fn set_dragging(&mut self, dragging: Option<DragKind>)
        ensures
            final(self).input.dragging == dragging,
            final(self).input.is_ctrl_pressed == old(self).input.is_ctrl_pressed,
            final(self).input.is_lalt_pressed == old(self).input.is_lalt_pressed,
            final(self).nodes == old(self).nodes,
            final(self).edges == old(self).edges,
            final(self).index == old(self).index,
            final(self).physics == old(self).physics,
            final(self).strength == old(self).strength,
    {
        self.input.set_dragging(dragging);
    }

    /// Puts node `id` and its object at `position`, as the pointer moves it.
    pub fn move_node(&mut self, id: u32, position: V)
        requires
            old(self).wf(),
            id < old(self).nodes@.len(),
        ensures
            final(self).wf(),
            final(self).nodes@ == old(self).nodes@.update(id as int, position),
            final(self).physics.objs@ == old(self).physics.objs@.update(
                id as int,
                Object { i: id, pos: position, strength: old(self).physics.objs@[id as int].strength },
            ),
            final(self).edges@ == old(self).edges@,
            final(self).index == old(self).index,
            final(self).input == old(self).input,
    {
        self.nodes.set(id as usize, position);
        self.physics.set_position(id, position);
    }

    /// One frame: a tick that holds still the node being moved, then the
    /// positions copied into the nodes and the edge caches.
    pub fn update<R: Fn(V, S, V, S) -> V, A: Fn(V, S, V, S) -> V>(&mut self, repel: &R, pull: &A)
        requires
            old(self).wf(),
            forall|a: V, sa: S, b: V, sb: S| call_requires(*repel, (a, sa, b, sb)),
            forall|a: V, sa: S, b: V, sb: S| call_requires(*pull, (a, sa, b, sb)),
        ensures
            final(self).wf(),
            tick_outcome(
                *repel,
                *pull,
                old(self).physics.objs@,
                final(self).physics.objs@,
                old(self).index,
                ends(old(self).edges@),
                old(self).input.dragged_node_spec(),
            ),
            final(self).nodes@.len() == old(self).nodes@.len(),
            forall|k: int|
                0 <= k < final(self).nodes@.len() ==> #[trigger] final(self).nodes@[k] == final(self).physics.objs@[k].pos,
            final(self).edges@.len() == old(self).edges@.len(),
            forall|e: int|
                0 <= e < final(self).edges@.len() ==> synced_edge(
                    final(self).physics.objs@,
                    old(self).edges@[e],
                    #[trigger] final(self).edges@[e],
                ),
            final(self).index == old(self).index,
            final(self).input == old(self).input,
            final(self).strength == old(self).strength,
    {
        let dragging = self.input.dragged_node();
        self.physics.tick(dragging, &self.edges, &self.index, repel, pull);
        self.physics.apply(&mut self.nodes, &mut self.edges, &self.index);
        proof {
            let en = ends(self.edges@);
            let en0 = ends(old(self).edges@);
            assert(en =~= en0) by {
                assert forall|e: int| 0 <= e < en.len() implies en[e] == en0[e] by {
                    assert(synced_edge(self.physics.objs@, old(self).edges@[e], self.edges@[e]));
                }
            }
        }
    }
}

} // verus!
