use force_layout::adjacency::AdjacencyIndex;
use force_layout::color::ColorGenerator;
use force_layout::edge::Edge;
use force_layout::input::{DragKind, InputState, PressAction};

fn edge(a: u32, b: u32) -> Edge<u8> {
    Edge::from_nodes(0, a, 0, b)
}

#[test]
fn index_lists_edges_in_order() {
    let edges = vec![edge(0, 1), edge(2, 0), edge(1, 2), edge(3, 3)];
    let index = AdjacencyIndex::build(&edges);
    assert_eq!(index.entries[0], vec![0, 1]);
    assert_eq!(index.entries[1], vec![0, 2]);
    assert_eq!(index.entries[2], vec![1, 2]);
    assert_eq!(index.entries[3], vec![3, 3]);
}

#[test]
fn index_add_extends_both_ends() {
    let mut index = AdjacencyIndex::new();
    assert!(index.entries.is_empty());
    index.add(0, 4, 1);
    assert_eq!(index.entries.len(), 5);
    assert_eq!(index.entries[4], vec![0]);
    assert_eq!(index.entries[1], vec![0]);
    assert!(index.entries[0].is_empty());
    index.add(1, 1, 2);
    assert_eq!(index.entries[1], vec![0, 1]);
    assert_eq!(index.entries[2], vec![1]);
}

#[test]
fn edge_other_end() {
    let e = edge(3, 5);
    assert_eq!(e.other_end(3), 5);
    assert_eq!(e.other_end(5), 3);
    assert_eq!(edge(2, 2).other_end(2), 2);
}

#[test]
fn input_starts_idle() {
    let s = InputState::default();
    assert!(s.dragging.is_none());
    assert!(!s.is_ctrl_pressed);
    assert!(!s.is_lalt_pressed);
    assert_eq!(s.dragged_node(), None);
}

#[test]
fn ctrl_turns_a_held_node_into_an_edge() {
    let mut s = InputState::default();
    assert_eq!(s.press(Some(2)), PressAction::Grab(DragKind::Node(2)));
    assert_eq!(s.dragged_node(), Some(2));
    s.set_ctrl(true);
    assert_eq!(s.dragging, Some(DragKind::EdgeCreation(2)));
    assert_eq!(s.dragged_node(), None);
    assert_eq!(s.release(Some(4)), Some((2, 4)));
    assert!(s.dragging.is_none());
    s.set_ctrl(false);
    assert!(!s.is_ctrl_pressed);
}

#[test]
fn ctrl_release_lets_go() {
    let mut s = InputState::default();
    s.set_ctrl(true);
    assert_eq!(s.press(Some(1)), PressAction::Grab(DragKind::EdgeCreation(1)));
    s.set_ctrl(false);
    assert!(s.dragging.is_none());
    assert_eq!(s.release(Some(3)), None);
}

#[test]
fn alt_press_adds_a_node() {
    let mut s = InputState::default();
    s.set_lalt(true);
    assert_eq!(s.press(Some(0)), PressAction::AddNode);
    assert!(s.dragging.is_none());
    s.set_lalt(false);
    assert_eq!(s.press(None), PressAction::Ignore);
}

#[test]
fn release_over_nothing_adds_no_edge() {
    let mut s = InputState::default();
    s.set_ctrl(true);
    s.press(Some(1));
    assert_eq!(s.release(None), None);
    s.press(Some(1));
    s.set_ctrl(false);
    s.press(Some(1));
    assert_eq!(s.release(Some(2)), None);
    assert!(s.dragging.is_none());
}

#[test]
fn hex_colors_split_into_channels() {
    assert_eq!(ColorGenerator::hex_to_rgb(0x5FB49C), (0x5F, 0xB4, 0x9C));
    assert_eq!(ColorGenerator::hex_to_rgb(0xFFFFFF), (255, 255, 255));
    assert_eq!(ColorGenerator::hex_to_rgb(0x000000), (0, 0, 0));
}

#[test]
fn palette_cycles() {
    let mut colors = ColorGenerator::new();
    assert_eq!(colors.colors.len(), 15);
    let first = colors.next();
    assert_eq!(first, (0x5F, 0xB4, 0x9C));
    assert_eq!(colors.next(), (0xF2, 0xB1, 0x34));
    for _ in 2..15 {
        colors.next();
    }
    assert_eq!(colors.idx, 15);
    assert_eq!(colors.next(), first);
    assert_eq!(colors.idx, 16);
    // Any count is accepted: the colour is taken modulo the palette's length.
    colors.idx = 31;
    assert_eq!(colors.next(), (0xF2, 0xB1, 0x34));
    assert_eq!(colors.idx, 32);
}
