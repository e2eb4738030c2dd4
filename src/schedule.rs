use vstd::prelude::*;
use crate::adjacency::{incident, lemma_incident_members, AdjacencyIndex};
use crate::edge::opposite;
use crate::physics::Object;

verus! {

/// Whether `k` is the node held by the pointer.
pub open spec fn is_held(dragging: Option<u32>, k: int) -> bool {
    dragging is Some && dragging->0 == k
}

/// The pairs `(i, j)`, `j < m`, `j != i`, in increasing `j`.
pub open spec fn repulsion_row(i: int, m: nat) -> Seq<(int, int)>
    decreases m,
{
    if m == 0 {
        seq![]
    } else {
        let p = repulsion_row(i, (m - 1) as nat);
        if m - 1 == i {
            p
        } else {
            p.push((i, m - 1))
        }
    }
}

/// The order in which the repulsion pass visits pairs `(target, source)`:
/// every target `i < rows` but the held one, and for each every other node.
pub open spec fn repulsion_schedule(n: nat, rows: nat, dragging: Option<u32>) -> Seq<(int, int)>
    decreases rows,
{
    if rows == 0 {
        seq![]
    } else {
        let p = repulsion_schedule(n, (rows - 1) as nat, dragging);
        if is_held(dragging, rows - 1) {
            p
        } else {
            p + repulsion_row(rows - 1, n)
        }
    }
}

/// One step of a pass: the object at `pair.0` gets the position that `f`
/// gives for it and for the object at `pair.1`; nothing else changes.
pub open spec fn step_ok<V, S, F: Fn(V, S, V, S) -> V>(
    f: F,
    before: Seq<Object<V, S>>,
    after: Seq<Object<V, S>>,
    pair: (int, int),
) -> bool {
    let (a, b) = pair;
    &&& 0 <= a < before.len()
    &&& 0 <= b < before.len()
    &&& after.len() == before.len()
    &&& forall|k: int| 0 <= k < before.len() && k != a ==> after[k] == before[k]
    &&& after[a].i == before[a].i
    &&& after[a].strength == before[a].strength
    &&& call_ensures(
        f,
        (before[a].pos, before[a].strength, before[b].pos, before[b].strength),
        after[a].pos,
    )
}

/// `trace` is a run of `f` over `schedule`, one state per step taken.
pub open spec fn run_ok<V, S, F: Fn(V, S, V, S) -> V>(
    f: F,
    schedule: Seq<(int, int)>,
    trace: Seq<Seq<Object<V, S>>>,
) -> bool {
    &&& trace.len() == schedule.len() + 1
    &&& forall|t: int| 0 <= t < schedule.len() ==> step_ok(f, #[trigger] trace[t], trace[t + 1], schedule[t])
}

/// The store is index-aligned: every object carries its own index.
pub open spec fn aligned<V, S>(objs: Seq<Object<V, S>>) -> bool {
    &&& objs.len() <= u32::MAX
    &&& forall|k: int| 0 <= k < objs.len() ==> #[trigger] objs[k].i == k
}


/// The first `m` pairs that the spring pass visits for `node`: one per edge
/// listed in `entry`, pulling `node` toward the edge's other end.
pub open spec fn spring_row(node: int, entry: Seq<u32>, ends: Seq<(u32, u32)>, m: nat) -> Seq<(int, int)> {
    Seq::new(m, |t: int| (node, opposite(ends[entry[t] as int], node)))
}

/// The order in which the spring pass visits pairs `(target, source)`: the
/// nodes `node < rows` in increasing order but the held one, each along its
/// incident edges in the order of the index.
pub open spec fn spring_schedule(
    index: AdjacencyIndex,
    ends: Seq<(u32, u32)>,
    rows: nat,
    dragging: Option<u32>,
) -> Seq<(int, int)>
    decreases rows,
{
    if rows == 0 {
        seq![]
    } else {
        let p = spring_schedule(index, ends, (rows - 1) as nat, dragging);
        let node = rows - 1;
        if is_held(dragging, node) {
            p
        } else {
            p + spring_row(node, index.entry(node), ends, index.entry(node).len())
        }
    }
}

/// Every endpoint of `ends` names one of `n` nodes.
pub open spec fn ends_within(ends: Seq<(u32, u32)>, n: nat) -> bool {
    forall|e: int| 0 <= e < ends.len() ==> (#[trigger] ends[e]).0 < n && ends[e].1 < n
}

/// `after` is what the repulsion pass makes of `before`.
#[verifier::opaque]
pub open spec fn repulsion_outcome<V, S, F: Fn(V, S, V, S) -> V>(
    f: F,
    before: Seq<Object<V, S>>,
    after: Seq<Object<V, S>>,
    dragging: Option<u32>,
) -> bool {
    exists|trace: Seq<Seq<Object<V, S>>>|
        {
            &&& run_ok(f, repulsion_schedule(before.len(), before.len(), dragging), trace)
            &&& trace[0] == before
            &&& trace.last() == after
        }
}

/// `after` is what the spring pass makes of `before` along the edges `ends`.
#[verifier::opaque]
pub open spec fn spring_outcome<V, S, F: Fn(V, S, V, S) -> V>(
    f: F,
    before: Seq<Object<V, S>>,
    after: Seq<Object<V, S>>,
    index: AdjacencyIndex,
    ends: Seq<(u32, u32)>,
    dragging: Option<u32>,
) -> bool {
    exists|trace: Seq<Seq<Object<V, S>>>|
        {
            &&& run_ok(f, spring_schedule(index, ends, index.entries@.len(), dragging), trace)
            &&& trace[0] == before
            &&& trace.last() == after
        }
}

pub(crate) proof fn lemma_run_push<V, S, F: Fn(V, S, V, S) -> V>(
    f: F,
    schedule: Seq<(int, int)>,
    trace: Seq<Seq<Object<V, S>>>,
    next: Seq<Object<V, S>>,
    pair: (int, int),
)
    requires
        run_ok(f, schedule, trace),
        step_ok(f, trace.last(), next, pair),
    ensures
        run_ok(f, schedule.push(pair), trace.push(next)),
{
    let s2 = schedule.push(pair);
    let t2 = trace.push(next);
    assert forall|t: int| 0 <= t < s2.len() implies step_ok(f, #[trigger] t2[t], t2[t + 1], s2[t]) by {
        if t < schedule.len() {
            assert(t2[t] == trace[t]);
            assert(t2[t + 1] == trace[t + 1]);
            assert(s2[t] == schedule[t]);
        } else {
            assert(t2[t] == trace.last());
        }
    }
}

/// No pair of `schedule` has `k` for its target.
pub open spec fn spares(schedule: Seq<(int, int)>, k: int) -> bool {
    forall|t: int| 0 <= t < schedule.len() ==> (#[trigger] schedule[t]).0 != k
}

/// A run keeps the length of the store, and every object that no step targets.
proof fn lemma_run_frame<V, S, F: Fn(V, S, V, S) -> V>(
    f: F,
    schedule: Seq<(int, int)>,
    trace: Seq<Seq<Object<V, S>>>,
    k: int,
)
    requires
        run_ok(f, schedule, trace),
    ensures
        trace.last().len() == trace[0].len(),
        spares(schedule, k) && 0 <= k < trace[0].len() ==> trace.last()[k] == trace[0][k],
    decreases schedule.len(),
{
    if schedule.len() > 0 {
        let s = schedule.drop_last();
        let tr = trace.drop_last();
        assert forall|t: int| 0 <= t < s.len() implies step_ok(f, #[trigger] tr[t], tr[t + 1], s[t]) by {
            assert(step_ok(f, trace[t], trace[t + 1], schedule[t]));
        }
        lemma_run_frame(f, s, tr, k);
        let t = schedule.len() - 1;
        assert(step_ok(f, trace[t], trace[t + 1], schedule[t]));
        if spares(schedule, k) {
            assert(spares(s, k)) by {
                assert forall|u: int| 0 <= u < s.len() implies (#[trigger] s[u]).0 != k by {
                    assert(s[u] == schedule[u]);
                }
            }
        }
    }
}

/// A run on an empty store takes no step.
proof fn lemma_run_empty<V, S, F: Fn(V, S, V, S) -> V>(
    f: F,
    schedule: Seq<(int, int)>,
    trace: Seq<Seq<Object<V, S>>>,
)
    requires
        run_ok(f, schedule, trace),
        trace[0].len() == 0,
    ensures
        trace.last() == trace[0],
{
    if schedule.len() > 0 {
        assert(step_ok(f, trace[0], trace[1], schedule[0]));
    }
}

proof fn lemma_repulsion_row(i: int, m: nat)
    ensures
        forall|t: int|
            0 <= t < repulsion_row(i, m).len() ==> {
                let p = #[trigger] repulsion_row(i, m)[t];
                p.0 == i && 0 <= p.1 < m && p.1 != i
            },
        forall|j: int| 0 <= j < m && j != i ==> repulsion_row(i, m).contains((i, j)),
    decreases m,
{
    if m > 0 {
        lemma_repulsion_row(i, (m - 1) as nat);
        let p = repulsion_row(i, (m - 1) as nat);
        assert forall|j: int| 0 <= j < m && j != i implies repulsion_row(i, m).contains((i, j)) by {
            if j < m - 1 {
                assert(p.contains((i, j)));
                let k = choose|k: int| 0 <= k < p.len() && p[k] == (i, j);
                if m - 1 != i {
                    assert(repulsion_row(i, m)[k] == p[k]);
                }
            } else {
                assert(repulsion_row(i, m)[p.len() as int] == (i, j));
            }
        }
    }
}

proof fn lemma_repulsion_schedule(n: nat, rows: nat, dragging: Option<u32>)
    ensures
        forall|t: int|
            0 <= t < repulsion_schedule(n, rows, dragging).len() ==> {
                let p = #[trigger] repulsion_schedule(n, rows, dragging)[t];
                0 <= p.0 < rows && 0 <= p.1 < n && p.0 != p.1 && !is_held(dragging, p.0)
            },
        forall|i: int, j: int|
            0 <= i < rows && 0 <= j < n && i != j && !is_held(dragging, i) ==> repulsion_schedule(
                n,
                rows,
                dragging,
            ).contains((i, j)),
    decreases rows,
{
    if rows > 0 {
        let r = rows - 1;
        lemma_repulsion_schedule(n, (rows - 1) as nat, dragging);
        lemma_repulsion_row(r, n);
        let p = repulsion_schedule(n, (rows - 1) as nat, dragging);
        let s = repulsion_schedule(n, rows, dragging);
        let row = repulsion_row(r, n);
        assert forall|t: int| 0 <= t < s.len() implies {
            let q = #[trigger] s[t];
            0 <= q.0 < rows && 0 <= q.1 < n && q.0 != q.1 && !is_held(dragging, q.0)
        } by {
            if t < p.len() {
                assert(s[t] == p[t]);
            } else {
                assert(s[t] == row[t - p.len()]);
            }
        }
        assert forall|i: int, j: int|
            0 <= i < rows && 0 <= j < n && i != j && !is_held(dragging, i) implies s.contains((i, j)) by {
            if i < r {
                assert(p.contains((i, j)));
                let k = choose|k: int| 0 <= k < p.len() && p[k] == (i, j);
                if !is_held(dragging, r) {
                    assert(s[k] == p[k]);
                }
            } else {
                assert(row.contains((i, j)));
                let k = choose|k: int| 0 <= k < row.len() && row[k] == (i, j);
                assert(s[p.len() + k] == row[k]);
            }
        }
    }
}

proof fn lemma_spring_schedule(index: AdjacencyIndex, ends: Seq<(u32, u32)>, rows: nat, dragging: Option<u32>)
    ensures
        forall|t: int|
            0 <= t < spring_schedule(index, ends, rows, dragging).len() ==> !is_held(
                dragging,
                (#[trigger] spring_schedule(index, ends, rows, dragging)[t]).0,
            ),
        forall|i: int, t: int|
            0 <= i < rows && !is_held(dragging, i) && 0 <= t < index.entry(i).len() ==> #[trigger] spring_schedule(
                index,
                ends,
                rows,
                dragging,
            ).contains(#[trigger] spring_row(i, index.entry(i), ends, index.entry(i).len())[t]),
    decreases rows,
{
    if rows > 0 {
        let r = rows - 1;
        lemma_spring_schedule(index, ends, (rows - 1) as nat, dragging);
        let p = spring_schedule(index, ends, (rows - 1) as nat, dragging);
        let s = spring_schedule(index, ends, rows, dragging);
        let row = spring_row(r, index.entry(r), ends, index.entry(r).len());
        assert forall|t: int| 0 <= t < s.len() implies !is_held(dragging, (#[trigger] s[t]).0) by {
            if t < p.len() {
                assert(s[t] == p[t]);
            } else {
                assert(s[t] == row[t - p.len()]);
            }
        }
        assert forall|i: int, t: int|
            0 <= i < rows && !is_held(dragging, i) && 0 <= t < index.entry(i).len() implies #[trigger] s.contains(
                #[trigger] spring_row(i, index.entry(i), ends, index.entry(i).len())[t],
            ) by {
            let q = spring_row(i, index.entry(i), ends, index.entry(i).len())[t];
            if i < r {
                assert(p.contains(q));
                let k = choose|k: int| 0 <= k < p.len() && p[k] == q;
                if !is_held(dragging, r) {
                    assert(s[k] == p[k]);
                }
            } else {
                assert(s[p.len() + t] == row[t]);
            }
        }
    }
}

/// `after` is what one tick makes of `before`: the repulsion pass, then the
/// spring pass on what it left.
#[verifier::opaque]
pub open spec fn tick_outcome<V, S, R: Fn(V, S, V, S) -> V, A: Fn(V, S, V, S) -> V>(
    repel: R,
    pull: A,
    before: Seq<Object<V, S>>,
    after: Seq<Object<V, S>>,
    index: AdjacencyIndex,
    ends: Seq<(u32, u32)>,
    dragging: Option<u32>,
) -> bool {
    exists|mid: Seq<Object<V, S>>|
        #[trigger] repulsion_outcome(repel, before, mid, dragging) && spring_outcome(
            pull,
            mid,
            after,
            index,
            ends,
            dragging,
        )
}

/// The held node is never the target of a repulsion step; every other node
/// is still pushed by it.
pub proof fn lemma_held_node_still_repels(n: nat, k: int)
    requires
        0 <= k < n,
        k <= u32::MAX,
    ensures
        spares(repulsion_schedule(n, n, Some(k as u32)), k),
        forall|i: int|
            0 <= i < n && i != k ==> #[trigger] repulsion_schedule(n, n, Some(k as u32)).contains((i, k)),
{
    lemma_repulsion_schedule(n, n, Some(k as u32));
}

/// Every other node with an edge to the held node is still pulled toward it.
pub proof fn lemma_held_node_still_pulls(index: AdjacencyIndex, ends: Seq<(u32, u32)>, k: u32, i: u32, e: int)
    requires
        index.models(ends),
        0 <= i < index.entries@.len(),
        i != k,
        0 <= e < ends.len(),
        ends[e] == (i, k) || ends[e] == (k, i),
    ensures
        spares(spring_schedule(index, ends, index.entries@.len(), Some(k)), k as int),
        spring_schedule(index, ends, index.entries@.len(), Some(k)).contains((i as int, k as int)),
{
    lemma_spring_schedule(index, ends, index.entries@.len(), Some(k));
    lemma_incident_members(ends, i as int);
    let entry = index.entry(i as int);
    assert(entry == incident(ends, i as int));
    assert(ends[e].0 == i || ends[e].1 == i);
    assert(entry.contains(e as u32));
    let t = choose|t: int| 0 <= t < entry.len() && entry[t] == e as u32;
    let row = spring_row(i as int, entry, ends, entry.len());
    assert(row[t] == (i as int, opposite(ends[e], i as int)));
}

/// The held node keeps its place through both passes.
pub proof fn lemma_held_node_stays<V, S, R: Fn(V, S, V, S) -> V, A: Fn(V, S, V, S) -> V>(
    repel: R,
    pull: A,
    before: Seq<Object<V, S>>,
    mid: Seq<Object<V, S>>,
    after: Seq<Object<V, S>>,
    index: AdjacencyIndex,
    ends: Seq<(u32, u32)>,
    k: u32,
)
    requires
        repulsion_outcome(repel, before, mid, Some(k)),
        spring_outcome(pull, mid, after, index, ends, Some(k)),
        k < before.len(),
    ensures
        after.len() == before.len(),
        after[k as int] == before[k as int],
{
    reveal(repulsion_outcome);
    reveal(spring_outcome);
    let t1 = choose|trace: Seq<Seq<Object<V, S>>>|
        {
            &&& run_ok(repel, repulsion_schedule(before.len(), before.len(), Some(k)), trace)
            &&& trace[0] == before
            &&& trace.last() == mid
        };
    let t2 = choose|trace: Seq<Seq<Object<V, S>>>|
        {
            &&& run_ok(pull, spring_schedule(index, ends, index.entries@.len(), Some(k)), trace)
            &&& trace[0] == mid
            &&& trace.last() == after
        };
    lemma_repulsion_schedule(before.len(), before.len(), Some(k));
    lemma_spring_schedule(index, ends, index.entries@.len(), Some(k));
    lemma_run_frame(repel, repulsion_schedule(before.len(), before.len(), Some(k)), t1, k as int);
    lemma_run_frame(pull, spring_schedule(index, ends, index.entries@.len(), Some(k)), t2, k as int);
}

/// On an empty store both passes change nothing.
pub proof fn lemma_empty_store_unchanged<V, S, R: Fn(V, S, V, S) -> V, A: Fn(V, S, V, S) -> V>(
    repel: R,
    pull: A,
    before: Seq<Object<V, S>>,
    mid: Seq<Object<V, S>>,
    after: Seq<Object<V, S>>,
    index: AdjacencyIndex,
    ends: Seq<(u32, u32)>,
    dragging: Option<u32>,
)
    requires
        repulsion_outcome(repel, before, mid, dragging),
        spring_outcome(pull, mid, after, index, ends, dragging),
        before.len() == 0,
    ensures
        after == before,
{
    reveal(repulsion_outcome);
    reveal(spring_outcome);
    let t1 = choose|trace: Seq<Seq<Object<V, S>>>|
        {
            &&& run_ok(repel, repulsion_schedule(before.len(), before.len(), dragging), trace)
            &&& trace[0] == before
            &&& trace.last() == mid
        };
    lemma_run_empty(repel, repulsion_schedule(before.len(), before.len(), dragging), t1);
    let t2 = choose|trace: Seq<Seq<Object<V, S>>>|
        {
            &&& run_ok(pull, spring_schedule(index, ends, index.entries@.len(), dragging), trace)
            &&& trace[0] == mid
            &&& trace.last() == after
        };
    lemma_run_empty(pull, spring_schedule(index, ends, index.entries@.len(), dragging), t2);
}

} // verus!
