use force_layout::adjacency::AdjacencyIndex;
use force_layout::edge::Edge;
use force_layout::input::DragKind;
use force_layout::physics::{Object, Physics};
use force_layout::state::State;

const MAX_DIST: f32 = 500.0;
const MIN_DIST: f32 = 200.0;
const STRENGTH: f32 = -100.0;

#[derive(Clone, Copy, Debug, PartialEq)]
struct P3 {
    x: f32,
    y: f32,
    z: f32,
}

fn p(x: f32, y: f32, z: f32) -> P3 {
    P3 { x, y, z }
}

fn dist(a: P3, b: P3) -> f32 {
    let (dx, dy, dz) = (a.x - b.x, a.y - b.y, a.z - b.z);
    (dx * dx + dy * dy + dz * dz).sqrt()
}

fn repel_within(max_dist: f32) -> impl Fn(P3, f32, P3, f32) -> P3 {
    move |a: P3, _sa: f32, b: P3, sb: f32| {
        let (dx, dy, dz) = (a.x - b.x, a.y - b.y, a.z - b.z);
        let d = (dx * dx + dy * dy + dz * dz).sqrt();
        if d >= max_dist || d.is_nan() || d == 0.0 {
            return a;
        }
        let force = sb / d;
        P3 { x: a.x - force * dx / d, y: a.y - force * dy / d, z: a.z - force * dz / d }
    }
}

fn pull(a: P3, sa: f32, b: P3, _sb: f32) -> P3 {
    let (dx, dy, dz) = (a.x - b.x, a.y - b.y, a.z - b.z);
    let d = (dx * dx + dy * dy + dz * dz).sqrt();
    if d.is_nan() || d <= MIN_DIST {
        return a;
    }
    let scaled = d * 0.00001;
    let force = -sa * scaled;
    P3 { x: a.x - (force * dx) * scaled, y: a.y - (force * dy) * scaled, z: a.z - (force * dz) * scaled }
}

fn close(a: f32, b: f32) -> bool {
    (a - b).abs() < 1e-3
}

fn physics_of(points: &[P3]) -> Physics<P3, f32> {
    Physics::new(&points.to_vec(), STRENGTH)
}

#[test]
fn repulsion_is_sequential() {
    let mut ph = physics_of(&[p(0.0, 0.0, 0.0), p(100.0, 0.0, 0.0)]);
    ph.repulse(None, &repel_within(1.0e6));
    assert!(close(ph.objs[0].pos.x, -1.0));
    assert!(close(ph.objs[1].pos.x, 100.9901));
    assert_eq!(ph.objs[0].pos.y, 0.0);
    assert_eq!(ph.objs[0].pos.z, 0.0);
    assert_eq!(ph.objs[1].pos.y, 0.0);
    assert_eq!(ph.objs[1].pos.z, 0.0);
}

#[test]
fn repulsion_order_is_observable() {
    // The second node sees where the first one already went.
    let mut ph: Physics<i64, i64> = Physics::new(&vec![0, 100], 1);
    let shift = |a: i64, _sa: i64, b: i64, _sb: i64| if a < b { a - 1 } else { a + (a - b) };
    ph.repulse(None, &shift);
    assert_eq!(ph.objs[0].pos, -1);
    assert_eq!(ph.objs[1].pos, 201);
}

#[test]
fn repulsion_cutoff_leaves_far_pairs() {
    let start = [p(0.0, 0.0, 0.0), p(MAX_DIST, 0.0, 0.0)];
    let mut ph = physics_of(&start);
    ph.repulse(None, &repel_within(MAX_DIST));
    assert_eq!(ph.objs[0].pos, start[0]);
    assert_eq!(ph.objs[1].pos, start[1]);
    let start = [p(0.0, 0.0, 0.0), p(400.0, 300.0, 100.0)];
    let mut ph = physics_of(&start);
    ph.repulse(None, &repel_within(MAX_DIST));
    assert_eq!(ph.objs[0].pos, start[0]);
    assert_eq!(ph.objs[1].pos, start[1]);
}

#[test]
fn spring_cutoff_leaves_close_pairs() {
    let start = vec![p(0.0, 0.0, 0.0), p(MIN_DIST, 0.0, 0.0)];
    let edges = vec![Edge::from_nodes(start[0], 0, start[1], 1)];
    let index = AdjacencyIndex::build(&edges);
    let mut ph = physics_of(&start);
    ph.attract(None, &edges, &index, &pull);
    assert_eq!(ph.objs[0].pos, start[0]);
    assert_eq!(ph.objs[1].pos, start[1]);
}

#[test]
fn spring_pulls_distant_pair_together() {
    let start = vec![p(0.0, 0.0, 0.0), p(1000.0, 0.0, 0.0)];
    let edges = vec![Edge::from_nodes(start[0], 0, start[1], 1)];
    let index = AdjacencyIndex::build(&edges);
    let mut ph = physics_of(&start);
    ph.attract(None, &edges, &index, &pull);
    let a = ph.objs[0].pos;
    let b = ph.objs[1].pos;
    assert!(close(a.x, 10.0));
    assert!(dist(a, b) < 1000.0);
    // Once within the rest distance, a further step changes nothing.
    let mut near = physics_of(&[p(0.0, 0.0, 0.0), p(150.0, 0.0, 0.0)]);
    near.attract(None, &edges, &index, &pull);
    assert_eq!(near.objs[0].pos, p(0.0, 0.0, 0.0));
    assert_eq!(near.objs[1].pos, p(150.0, 0.0, 0.0));
}

#[test]
fn coincident_nodes_stay_finite() {
    let start = vec![p(5.0, 5.0, 0.0), p(5.0, 5.0, 0.0)];
    let edges = vec![Edge::from_nodes(start[0], 0, start[1], 1)];
    let index = AdjacencyIndex::build(&edges);
    let mut ph = physics_of(&start);
    ph.tick(None, &edges, &index, &repel_within(MAX_DIST), &pull);
    for o in ph.objs.iter() {
        assert_eq!(o.pos, p(5.0, 5.0, 0.0));
        assert!(!o.pos.x.is_nan() && !o.pos.y.is_nan() && !o.pos.z.is_nan());
    }
}

#[test]
fn held_node_stays_but_still_repels() {
    let start = vec![p(0.0, 0.0, 0.0), p(100.0, 0.0, 0.0), p(0.0, 900.0, 0.0)];
    let edges = vec![Edge::from_nodes(start[0], 0, start[2], 2)];
    let index = AdjacencyIndex::build(&edges);
    let mut ph = physics_of(&start);
    ph.tick(Some(0), &edges, &index, &repel_within(MAX_DIST), &pull);
    assert_eq!(ph.objs[0].pos, start[0]);
    assert!(close(ph.objs[1].pos.x, 101.0));
    // Node 2 is beyond the cutoff of both others but pulled toward node 0.
    assert!(ph.objs[2].pos.y < 900.0);
}

#[test]
fn empty_store_is_unchanged() {
    let mut ph = physics_of(&[]);
    let edges: Vec<Edge<P3>> = Vec::new();
    let index = AdjacencyIndex::build(&edges);
    ph.tick(None, &edges, &index, &repel_within(MAX_DIST), &pull);
    assert!(ph.objs.is_empty());
    let mut nodes: Vec<P3> = Vec::new();
    let mut edges = edges;
    ph.apply(&mut nodes, &mut edges, &index);
    assert!(nodes.is_empty());
    assert!(edges.is_empty());
}

#[test]
fn apply_copies_positions_into_nodes_and_edges() {
    let start = vec![p(0.0, 0.0, 0.0), p(1.0, 0.0, 0.0), p(2.0, 0.0, 0.0)];
    let mut edges = vec![Edge::from_nodes(start[0], 0, start[1], 1), Edge::from_nodes(start[2], 2, start[0], 0)];
    let index = AdjacencyIndex::build(&edges);
    let mut ph = physics_of(&start);
    ph.set_position(0, p(7.0, 8.0, 9.0));
    ph.set_position(2, p(-1.0, -2.0, -3.0));
    let mut nodes = start.clone();
    ph.apply(&mut nodes, &mut edges, &index);
    for (k, o) in ph.objs.iter().enumerate() {
        assert_eq!(nodes[k], o.pos);
    }
    assert_eq!(edges[0].a_center, p(7.0, 8.0, 9.0));
    assert_eq!(edges[0].b_center, p(1.0, 0.0, 0.0));
    assert_eq!(edges[1].a_center, p(-1.0, -2.0, -3.0));
    assert_eq!(edges[1].b_center, p(7.0, 8.0, 9.0));
}

#[test]
fn apply_refreshes_both_caches_of_a_loop() {
    let start = vec![p(0.0, 0.0, 0.0)];
    let mut edges = vec![Edge::from_nodes(start[0], 0, start[0], 0)];
    let index = AdjacencyIndex::build(&edges);
    let mut ph = physics_of(&start);
    ph.set_position(0, p(3.0, 3.0, 3.0));
    let mut nodes = start.clone();
    ph.apply(&mut nodes, &mut edges, &index);
    assert_eq!(edges[0].a_center, p(3.0, 3.0, 3.0));
    assert_eq!(edges[0].b_center, p(3.0, 3.0, 3.0));
}

#[test]
fn push_takes_the_next_index() {
    let mut ph = physics_of(&[p(0.0, 0.0, 0.0), p(1.0, 1.0, 1.0)]);
    let id = ph.push(p(4.0, 4.0, 4.0), STRENGTH);
    assert_eq!(id, 2);
    assert_eq!(ph.objs.len(), 3);
    for (k, o) in ph.objs.iter().enumerate() {
        assert_eq!(o.i as usize, k);
    }
    assert_eq!(ph.objs[2].pos, p(4.0, 4.0, 4.0));
    assert_eq!(ph.objs[2].strength, STRENGTH);
}

#[test]
fn state_add_node_keeps_alignment() {
    let mut st: State<P3, f32> = State::new(vec![p(0.0, 0.0, 0.0)], Vec::new(), STRENGTH);
    let id = st.add_node(p(9.0, 0.0, 0.0));
    assert_eq!(id, 1);
    assert_eq!(st.nodes.len(), st.physics.objs.len());
    assert_eq!(st.physics.objs[1].i, 1);
    assert_eq!(st.physics.objs[1].pos, p(9.0, 0.0, 0.0));
    assert_eq!(st.physics.objs[1].strength, STRENGTH);
}

#[test]
fn state_update_syncs_everything() {
    let mut st: State<P3, f32> = State::new(vec![p(0.0, 0.0, 0.0), p(100.0, 0.0, 0.0)], Vec::new(), STRENGTH);
    let n = st.add_node(p(0.0, 1000.0, 0.0));
    let e = st.add_edge(0, n);
    assert_eq!(e, 0);
    assert_eq!(st.index.entries[0], vec![0]);
    assert_eq!(st.index.entries[2], vec![0]);
    st.update(&repel_within(MAX_DIST), &pull);
    for k in 0..st.nodes.len() {
        assert_eq!(st.nodes[k], st.physics.objs[k].pos);
    }
    assert_eq!(st.edges[0].a_center, st.nodes[0]);
    assert_eq!(st.edges[0].b_center, st.nodes[2]);
    // Pushed off node 1, then pulled a hundredth of its offset toward node 2.
    assert!(close(st.nodes[0].x, -0.99));
    assert!(st.nodes[0].y > 0.0);
    assert!(st.nodes[2].y < 1000.0);
}

#[test]
fn state_update_holds_the_moved_node() {
    let mut st: State<P3, f32> = State::new(vec![p(0.0, 0.0, 0.0), p(100.0, 0.0, 0.0)], Vec::new(), STRENGTH);
    st.set_dragging(Some(DragKind::Node(1)));
    st.move_node(1, p(50.0, 0.0, 0.0));
    st.update(&repel_within(MAX_DIST), &pull);
    assert_eq!(st.nodes[1], p(50.0, 0.0, 0.0));
    assert!(close(st.nodes[0].x, -2.0));
    // An edge being drawn does not hold its node.
    st.set_dragging(Some(DragKind::EdgeCreation(1)));
    st.update(&repel_within(MAX_DIST), &pull);
    assert!(st.nodes[1].x > 50.0);
}

#[test]
fn object_apply_writes_node() {
    let o = Object::from_node(3, p(1.0, 2.0, 3.0), STRENGTH);
    assert_eq!(o.i, 3);
    let mut node = p(0.0, 0.0, 0.0);
    o.apply(&mut node);
    assert_eq!(node, p(1.0, 2.0, 3.0));
}

#[test]
fn object_apply_edge_picks_matching_end() {
    let o = Object::from_node(1, p(5.0, 5.0, 5.0), STRENGTH);
    let mut e = Edge::from_nodes(p(0.0, 0.0, 0.0), 0, p(1.0, 1.0, 1.0), 1);
    o.apply_edge(1, &mut e);
    assert_eq!(e.a_center, p(0.0, 0.0, 0.0));
    assert_eq!(e.b_center, p(5.0, 5.0, 5.0));
    let mut lp = Edge::from_nodes(p(0.0, 0.0, 0.0), 1, p(0.0, 0.0, 0.0), 1);
    o.apply_edge(1, &mut lp);
    assert_eq!(lp.a_center, p(5.0, 5.0, 5.0));
    assert_eq!(lp.b_center, p(5.0, 5.0, 5.0));
    o.apply_edge(7, &mut e);
    assert_eq!(e.a_center, p(0.0, 0.0, 0.0));
    assert_eq!(e.b_center, p(5.0, 5.0, 5.0));
}

#[test]
fn new_mirrors_nodes_in_order() {
    let ph = physics_of(&[p(1.0, 0.0, 0.0), p(2.0, 0.0, 0.0), p(3.0, 0.0, 0.0)]);
    assert_eq!(ph.objs.len(), 3);
    for (k, o) in ph.objs.iter().enumerate() {
        assert_eq!(o.i as usize, k);
        assert_eq!(o.pos, p(k as f32 + 1.0, 0.0, 0.0));
        assert_eq!(o.strength, STRENGTH);
    }
}
