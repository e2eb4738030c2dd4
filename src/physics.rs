use vstd::prelude::*;
use crate::adjacency::{incident, lemma_incident_members, AdjacencyIndex};
use crate::edge::{ends, Edge};
use crate::schedule::{
    aligned, ends_within, is_held, lemma_empty_store_unchanged, lemma_held_node_stays, lemma_run_push,
    repulsion_outcome, repulsion_row, repulsion_schedule, run_ok, spring_outcome, spring_row,
    spring_schedule, step_ok, tick_outcome,
};

verus! {

/// One simulated point mass, index-aligned with a node.
pub struct Object<V, S> {
    /// The index of the node that this object mirrors.
    pub i: u32,
    pub pos: V,
    pub strength: S,
}

/// The position store: one object per node, `objs[k].i == k`.
pub struct Physics<V, S> {
    pub objs: Vec<Object<V, S>>,
}

impl<V: Copy, S: Copy> Object<V, S> {
    /// The object for node `i`, at the node's position.
    pub fn from_node(i: u32, position: V, strength: S) -> (r: Self)
        ensures
            r == (Object { i, pos: position, strength }),
    {
        Object { i, pos: position, strength }
    }

    /// Writes this object's position into its node.
    pub fn apply(&self, node: &mut V)
        ensures
            *final(node) == self.pos,
    {
        *node = self.pos;
    }

    /// Refreshes the cache of the endpoint of `edge` that is node `id`, at
    /// this object's position: both caches if both endpoints are `id`, none
    /// if neither is.
    pub fn apply_edge(&self, id: u32, edge: &mut Edge<V>)
        ensures
            final(edge).a_id == old(edge).a_id,
            final(edge).b_id == old(edge).b_id,
            final(edge).a_center == (if old(edge).a_id == id { self.pos } else { old(edge).a_center }),
            final(edge).b_center == (if old(edge).b_id == id { self.pos } else { old(edge).b_center }),
    {
        if edge.a_id == id {
            edge.a_center = self.pos;
        }
        if edge.b_id == id {
            edge.b_center = self.pos;
        }
    }
}

/// An edge's caches part way through the sync pass: the first is refreshed
/// once `a_done`, the second once `b_done`.
pub open spec fn partly_synced<V, S>(
    objs: Seq<Object<V, S>>,
    before: Edge<V>,
    after: Edge<V>,
    a_done: bool,
    b_done: bool,
) -> bool {
    &&& after.a_id == before.a_id
    &&& after.b_id == before.b_id
    &&& after.a_center == (if a_done { objs[before.a_id as int].pos } else { before.a_center })
    &&& after.b_center == (if b_done { objs[before.b_id as int].pos } else { before.b_center })
}

/// Where the sync pass leaves an edge: each endpoint's cache holds its
/// node's position.
pub open spec fn synced_edge<V, S>(objs: Seq<Object<V, S>>, before: Edge<V>, after: Edge<V>) -> bool {
    &&& after.a_id == before.a_id
    &&& after.b_id == before.b_id
    &&& after.a_center == objs[before.a_id as int].pos
    &&& after.b_center == objs[before.b_id as int].pos
}

impl<V: Copy, S: Copy> Physics<V, S> {
    pub open spec fn wf(&self) -> bool {
        aligned(self.objs@)
    }

    /// One object per node, in node order, all of strength `strength`.
    pub fn new(nodes: &Vec<V>, strength: S) -> (r: Self)
        requires
            nodes@.len() <= u32::MAX,
        ensures
            r.wf(),
            r.objs@.len() == nodes@.len(),
            forall|k: int|
                0 <= k < nodes@.len() ==> #[trigger] r.objs@[k] == (Object { i: k as u32, pos: nodes@[k], strength }),
    {
        let mut objs: Vec<Object<V, S>> = Vec::new();
        let mut k: usize = 0;
        while k < nodes.len()
            invariant
                0 <= k <= nodes@.len() <= u32::MAX,
                objs@.len() == k,
                forall|m: int|
                    0 <= m < k ==> #[trigger] objs@[m] == (Object { i: m as u32, pos: nodes@[m], strength }),
            decreases nodes@.len() - k,
        {
            objs.push(Object::from_node(k as u32, nodes[k], strength));
            k += 1;
        }
        Physics { objs }
    }

    /// Appends the object of a new node, which takes the next index.
    pub fn push(&mut self, position: V, strength: S) -> (id: u32)
        requires
            old(self).wf(),
            old(self).objs@.len() < u32::MAX,
        ensures
            final(self).wf(),
            id == old(self).objs@.len(),
            final(self).objs@[id as int].i == id,
            forall|k: int| 0 <= k <= id ==> #[trigger] final(self).objs@[k].i == k,
            final(self).objs@ == old(self).objs@.push(Object { i: id, pos: position, strength }),
    {
        let id = self.objs.len() as u32;
        self.objs.push(Object::from_node(id, position, strength));
        id
    }

    /// Puts object `id` at `position`, as when its node is dragged.
    pub fn set_position(&mut self, id: u32, position: V)
        requires
            old(self).wf(),
            id < old(self).objs@.len(),
        ensures
            final(self).wf(),
            final(self).objs@ == old(self).objs@.update(
                id as int,
                Object { i: id, pos: position, strength: old(self).objs@[id as int].strength },
            ),
    {
        self.objs[id as usize].pos = position;
    }

    /// One simulation step: the repulsion pass, then the spring pass.
    pub fn tick<R: Fn(V, S, V, S) -> V, A: Fn(V, S, V, S) -> V>(
        &mut self,
        dragging: Option<u32>,
        edges: &Vec<Edge<V>>,
        index: &AdjacencyIndex,
        repel: &R,
        pull: &A,
    )
        requires
            old(self).wf(),
            index.models(ends(edges@)),
            ends_within(ends(edges@), old(self).objs@.len()),
            forall|a: V, sa: S, b: V, sb: S| call_requires(*repel, (a, sa, b, sb)),
            forall|a: V, sa: S, b: V, sb: S| call_requires(*pull, (a, sa, b, sb)),
        ensures
            final(self).wf(),
            final(self).objs@.len() == old(self).objs@.len(),
            tick_outcome(*repel, *pull, old(self).objs@, final(self).objs@, *index, ends(edges@), dragging),
            dragging is Some && dragging->0 < old(self).objs@.len() ==> final(self).objs@[dragging->0 as int]
                == old(self).objs@[dragging->0 as int],
            old(self).objs@.len() == 0 ==> final(self).objs@ == old(self).objs@,
    {
        let ghost before = self.objs@;
        self.repulse(dragging, repel);
        let ghost mid = self.objs@;
        self.attract(dragging, edges, index, pull);
        proof {
            reveal(tick_outcome);
            assert(repulsion_outcome(*repel, before, mid, dragging));
            assert(spring_outcome(*pull, mid, self.objs@, *index, ends(edges@), dragging));
            if let Some(k) = dragging {
                if k < before.len() {
                    lemma_held_node_stays(*repel, *pull, before, mid, self.objs@, *index, ends(edges@), k);
                }
            }
            if before.len() == 0 {
                lemma_empty_store_unchanged(*repel, *pull, before, mid, self.objs@, *index, ends(edges@), dragging);
            }
        }
    }

    /// Copies each object's position into its node, then into the caches of
    /// the node's incident edges.
    pub fn apply(&self, nodes: &mut Vec<V>, edges: &mut Vec<Edge<V>>, index: &AdjacencyIndex)
        requires
            self.wf(),
            old(nodes)@.len() == self.objs@.len(),
            index.models(ends(old(edges)@)),
            ends_within(ends(old(edges)@), self.objs@.len()),
        ensures
            final(nodes)@.len() == old(nodes)@.len(),
            forall|k: int| 0 <= k < final(nodes)@.len() ==> #[trigger] final(nodes)@[k] == self.objs@[k].pos,
            final(edges)@.len() == old(edges)@.len(),
            forall|e: int|
                0 <= e < final(edges)@.len() ==> synced_edge(self.objs@, old(edges)@[e], #[trigger] final(edges)@[e]),
    {
        let n = self.objs.len();
        let ghost en = ends(edges@);
        let ghost e0 = edges@;
        assert forall|e: int| 0 <= e < e0.len() implies (#[trigger] e0[e]).a_id < n && e0[e].b_id < n by {
            assert(en[e] == (e0[e].a_id, e0[e].b_id));
        }
        let mut i: usize = 0;
        while i < n
            invariant
                forall|e: int| 0 <= e < e0.len() ==> (#[trigger] e0[e]).a_id < n && e0[e].b_id < n,
                n == self.objs@.len(),
                n <= u32::MAX,
                0 <= i <= n,
                nodes@.len() == n,
                forall|k: int| 0 <= k < i ==> #[trigger] nodes@[k] == self.objs@[k].pos,
                edges@.len() == e0.len(),
                en == ends(e0),
                index.models(en),
                ends_within(en, n as nat),
                forall|e: int|
                    0 <= e < e0.len() ==> partly_synced(
                        self.objs@,
                        e0[e],
                        #[trigger] edges@[e],
                        e0[e].a_id < i,
                        e0[e].b_id < i,
                    ),
            decreases n - i,
        {
            let obj = &self.objs[i];
            obj.apply(&mut nodes[i]);
            if i < index.entries.len() {
                let entry = &index.entries[i];
                proof {
                    lemma_incident_members(en, i as int);
                    assert(index.entry(i as int) == entry@);
                }
                let mut t: usize = 0;
                while t < entry.len()
                    invariant
                        n == self.objs@.len(),
                        n <= u32::MAX,
                        0 <= i < n,
                        *obj == self.objs@[i as int],
                        i < index.entries@.len(),
                        0 <= t <= entry@.len(),
                        entry@ == incident(en, i as int),
                        forall|k: int|
                            0 <= k < incident(en, i as int).len() ==> {
                                let e = #[trigger] incident(en, i as int)[k] as int;
                                0 <= e < en.len() && (en[e].0 == i || en[e].1 == i)
                            },
                        edges@.len() == e0.len(),
                        e0.len() <= u32::MAX + 1,
                        en == ends(e0),
                        forall|e: int|
                            0 <= e < e0.len() ==> partly_synced(
                                self.objs@,
                                e0[e],
                                #[trigger] edges@[e],
                                e0[e].a_id < i || (e0[e].a_id == i && entry@.take(t as int).contains(e as u32)),
                                e0[e].b_id < i || (e0[e].b_id == i && entry@.take(t as int).contains(e as u32)),
                            ),
                    decreases entry@.len() - t,
                {
                    let e = entry[t] as usize;
                    let ghost before = edges@;
                    proof {
                        assert(en[e as int] == (e0[e as int].a_id, e0[e as int].b_id));
                    }
                    obj.apply_edge(i as u32, &mut edges[e]);
                    proof {
                        let d0 = entry@.take(t as int);
                        let d1 = entry@.take(t + 1);
                        assert(d1 =~= d0.push(e as u32));
                        assert forall|f: int| 0 <= f < e0.len() implies #[trigger] d1.contains(f as u32) == (d0.contains(
                            f as u32,
                        ) || f == e) by {
                            if d1.contains(f as u32) && !d0.contains(f as u32) {
                                let k = choose|k: int| 0 <= k < d1.len() && d1[k] == f as u32;
                                if k < d0.len() {
                                    assert(d0[k] == d1[k]);
                                }
                            }
                            if d0.contains(f as u32) {
                                let k = choose|k: int| 0 <= k < d0.len() && d0[k] == f as u32;
                                assert(d1[k] == d0[k]);
                            }
                            if f == e {
                                assert(d1[d0.len() as int] == e as u32);
                            }
                        }
                        assert forall|f: int| 0 <= f < e0.len() implies partly_synced(
                            self.objs@,
                            e0[f],
                            #[trigger] edges@[f],
                            e0[f].a_id < i || (e0[f].a_id == i && d1.contains(f as u32)),
                            e0[f].b_id < i || (e0[f].b_id == i && d1.contains(f as u32)),
                        ) by {
                            assert(d1.contains(f as u32) == (d0.contains(f as u32) || f == e));
                            assert(partly_synced(
                                self.objs@,
                                e0[f],
                                before[f],
                                e0[f].a_id < i || (e0[f].a_id == i && d0.contains(f as u32)),
                                e0[f].b_id < i || (e0[f].b_id == i && d0.contains(f as u32)),
                            ));
                            if f != e {
                                assert(edges@[f] == before[f]);
                            } else {
                                assert(e0[f].a_id == i || e0[f].b_id == i);
                                assert(obj.pos == self.objs@[i as int].pos);
                            }
                        }
                    }
                    t += 1;
                }
                proof {
                    assert(entry@.take(t as int) =~= entry@);
                    lemma_incident_members(en, i as int);
                    assert forall|e: int| 0 <= e < e0.len() && (e0[e].a_id == i || e0[e].b_id == i) implies entry@.contains(
                        e as u32,
                    ) by {
                        assert(en[e] == (e0[e].a_id, e0[e].b_id));
                    }
                    assert forall|e: int| 0 <= e < e0.len() implies partly_synced(
                        self.objs@,
                        e0[e],
                        #[trigger] edges@[e],
                        e0[e].a_id < i + 1,
                        e0[e].b_id < i + 1,
                    ) by {
                        if e0[e].a_id == i || e0[e].b_id == i {
                            assert(entry@.contains(e as u32));
                        }
                    }
                }
            } else {
                proof {
                    assert forall|e: int| 0 <= e < en.len() implies (#[trigger] en[e]).0 != i && en[e].1 != i by {
                        lemma_incident_members(en, i as int);
                        if en[e].0 == i || en[e].1 == i {
                            assert(incident(en, i as int).contains(e as u32));
                            assert(index.entry(i as int).len() == 0);
                        }
                    }
                    assert forall|e: int| 0 <= e < e0.len() implies partly_synced(
                        self.objs@,
                        e0[e],
                        #[trigger] edges@[e],
                        e0[e].a_id < i + 1,
                        e0[e].b_id < i + 1,
                    ) by {
                        assert(en[e] == (e0[e].a_id, e0[e].b_id));
                    }
                }
            }
            i += 1;
        }
    }

    /// Moves the object at `a` to where `f` puts it for the object at `b`.
    fn step<F: Fn(V, S, V, S) -> V>(&mut self, f: &F, a: usize, b: usize)
        requires
            aligned(old(self).objs@),
            a < old(self).objs@.len(),
            b < old(self).objs@.len(),
            forall|x: V, sx: S, y: V, sy: S| call_requires(*f, (x, sx, y, sy)),
        ensures
            aligned(final(self).objs@),
            step_ok(*f, old(self).objs@, final(self).objs@, (a as int, b as int)),
    {
        let x = self.objs[a].pos;
        let sx = self.objs[a].strength;
        let y = self.objs[b].pos;
        let sy = self.objs[b].strength;
        let r = f(x, sx, y, sy);
        self.objs[a].pos = r;
    }

    /// Repulsion: every node but the held one is pushed by every other node,
    /// in index order, each step reading the positions as they stand.
    pub fn repulse<F: Fn(V, S, V, S) -> V>(&mut self, dragging: Option<u32>, repel: &F)
        requires
            old(self).wf(),
            forall|a: V, sa: S, b: V, sb: S| call_requires(*repel, (a, sa, b, sb)),
        ensures
            final(self).wf(),
            final(self).objs@.len() == old(self).objs@.len(),
            repulsion_outcome(*repel, old(self).objs@, final(self).objs@, dragging),
    {
        reveal(repulsion_outcome);
        let n = self.objs.len();
        let ghost mut trace: Seq<Seq<Object<V, S>>> = seq![self.objs@];
        let mut i: usize = 0;
        while i < n
            invariant
                n == self.objs@.len(),
                0 <= i <= n,
                aligned(self.objs@),
                forall|a: V, sa: S, b: V, sb: S| call_requires(*repel, (a, sa, b, sb)),
                run_ok(*repel, repulsion_schedule(n as nat, i as nat, dragging), trace),
                trace[0] == old(self).objs@,
                trace.last() == self.objs@,
            decreases n - i,
        {
            let held = match dragging {
                Some(d) => d as usize == i,
                None => false,
            };
            if !held {
                let mut j: usize = 0;
                while j < n
                    invariant
                        n == self.objs@.len(),
                        0 <= i < n,
                        0 <= j <= n,
                        !is_held(dragging, i as int),
                        aligned(self.objs@),
                        forall|a: V, sa: S, b: V, sb: S| call_requires(*repel, (a, sa, b, sb)),
                        run_ok(
                            *repel,
                            repulsion_schedule(n as nat, i as nat, dragging) + repulsion_row(i as int, j as nat),
                            trace,
                        ),
                        trace[0] == old(self).objs@,
                        trace.last() == self.objs@,
                    decreases n - j,
                {
                    if j != i {
                        self.step(repel, i, j);
                        proof {
                            let s = repulsion_schedule(n as nat, i as nat, dragging) + repulsion_row(i as int, j as nat);
                            lemma_run_push(*repel, s, trace, self.objs@, (i as int, j as int));
                            trace = trace.push(self.objs@);
                            assert(s.push((i as int, j as int))
                                =~= repulsion_schedule(n as nat, i as nat, dragging) + repulsion_row(i as int, (j + 1) as nat));
                        }
                    } else {
                        proof {
                            assert(repulsion_row(i as int, (j + 1) as nat) == repulsion_row(i as int, j as nat));
                        }
                    }
                    j += 1;
                }
                proof {
                    assert(repulsion_schedule(n as nat, (i + 1) as nat, dragging)
                        == repulsion_schedule(n as nat, i as nat, dragging) + repulsion_row(i as int, n as nat));
                }
            }
            i += 1;
        }
    }

    /// Springs: every node but the held one is pulled along each of its
    /// edges toward the other end, nodes in increasing order, edges in the
    /// order of the index, each step reading the positions as they stand.
    pub fn attract<F: Fn(V, S, V, S) -> V>(
        &mut self,
        dragging: Option<u32>,
        edges: &Vec<Edge<V>>,
        index: &AdjacencyIndex,
        pull: &F,
    )
        requires
            old(self).wf(),
            index.models(ends(edges@)),
            ends_within(ends(edges@), old(self).objs@.len()),
            forall|a: V, sa: S, b: V, sb: S| call_requires(*pull, (a, sa, b, sb)),
        ensures
            final(self).wf(),
            final(self).objs@.len() == old(self).objs@.len(),
            spring_outcome(*pull, old(self).objs@, final(self).objs@, *index, ends(edges@), dragging),
    {
        reveal(spring_outcome);
        let n = self.objs.len();
        let ghost en = ends(edges@);
        let ghost mut trace: Seq<Seq<Object<V, S>>> = seq![self.objs@];
        let rows = index.entries.len();
        let mut node: usize = 0;
        while node < rows
            invariant
                n == self.objs@.len(),
                rows == index.entries@.len(),
                0 <= node <= rows,
                aligned(self.objs@),
                index.models(en),
                en == ends(edges@),
                ends_within(en, n as nat),
                forall|a: V, sa: S, b: V, sb: S| call_requires(*pull, (a, sa, b, sb)),
                run_ok(*pull, spring_schedule(*index, en, node as nat, dragging), trace),
                trace[0] == old(self).objs@,
                trace.last() == self.objs@,
            decreases rows - node,
        {
            let held = match dragging {
                Some(d) => d as usize == node,
                None => false,
            };
            if !held {
                let entry = &index.entries[node];
                proof {
                    lemma_incident_members(en, node as int);
                    assert(index.entry(node as int) == entry@);
                }
                let mut t: usize = 0;
                while t < entry.len()
                    invariant
                        n == self.objs@.len(),
                        rows == index.entries@.len(),
                        0 <= node < rows,
                        0 <= t <= entry@.len(),
                        entry@ == index.entry(node as int),
                        entry@ == incident(en, node as int),
                        forall|k: int|
                            0 <= k < incident(en, node as int).len() ==> {
                                let e = #[trigger] incident(en, node as int)[k] as int;
                                0 <= e < en.len() && (en[e].0 == node || en[e].1 == node)
                            },
                        !is_held(dragging, node as int),
                        aligned(self.objs@),
                        en == ends(edges@),
                        ends_within(en, n as nat),
                        forall|a: V, sa: S, b: V, sb: S| call_requires(*pull, (a, sa, b, sb)),
                        run_ok(
                            *pull,
                            spring_schedule(*index, en, node as nat, dragging) + spring_row(
                                node as int,
                                entry@,
                                en,
                                t as nat,
                            ),
                            trace,
                        ),
                        trace[0] == old(self).objs@,
                        trace.last() == self.objs@,
                    decreases entry@.len() - t,
                {
                    let e = entry[t] as usize;
                    proof {
                        assert(en[e as int] == (edges@[e as int].a_id, edges@[e as int].b_id));
                    }
                    let other = edges[e].other_end(node as u32) as usize;
                    self.step(pull, node, other);
                    proof {
                        let s = spring_schedule(*index, en, node as nat, dragging) + spring_row(
                            node as int,
                            entry@,
                            en,
                            t as nat,
                        );
                        lemma_run_push(*pull, s, trace, self.objs@, (node as int, other as int));
                        trace = trace.push(self.objs@);
                        assert(s.push((node as int, other as int)) =~= spring_schedule(
                            *index,
                            en,
                            node as nat,
                            dragging,
                        ) + spring_row(node as int, entry@, en, (t + 1) as nat));
                    }
                    t += 1;
                }
            }
            node += 1;
        }
    }
}

} // verus!
