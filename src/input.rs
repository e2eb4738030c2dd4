use vstd::prelude::*;

verus! {

/// What the pointer is holding.
#[derive(Clone, Copy, Debug, PartialEq, Eq, Structural)]
pub enum DragKind {
    /// A node being moved.
    Node(u32),
    /// An edge being drawn out of a node.
    EdgeCreation(u32),
}

/// What a button press asks for.
#[derive(Clone, Copy, Debug, PartialEq, Eq, Structural)]
pub enum PressAction {
    /// Add a node under the pointer.
    AddNode,
    /// Start holding something.
    Grab(DragKind),
    /// Nothing.
    Ignore,
}

/// The modifier keys and what the pointer holds.
pub struct InputState {
    pub dragging: Option<DragKind>,
    pub is_ctrl_pressed: bool,
    pub is_lalt_pressed: bool,
}

impl Default for InputState {
    fn default() -> (r: Self)
        ensures
            r.dragging is None,
            !r.is_ctrl_pressed,
            !r.is_lalt_pressed,
    {
        InputState { dragging: None, is_ctrl_pressed: false, is_lalt_pressed: false }
    }
}

/// What the ctrl key makes of a hold: pressing it turns a held node into an
/// edge being drawn from it, releasing it lets go.
pub open spec fn with_ctrl(dragging: Option<DragKind>, pressed: bool) -> Option<DragKind> {
    if !pressed {
        None
    } else {
        match dragging {
            Some(DragKind::Node(n)) => Some(DragKind::EdgeCreation(n)),
            other => other,
        }
    }
}

impl InputState {
    /// The ctrl key went down or up.
    pub fn set_ctrl(&mut self, pressed: bool)
        ensures
            final(self).is_ctrl_pressed == pressed,
            final(self).is_lalt_pressed == old(self).is_lalt_pressed,
            final(self).dragging == with_ctrl(old(self).dragging, pressed),
    {
        self.is_ctrl_pressed = pressed;
        if !pressed {
            self.dragging = None;
        } else {
            self.dragging = match self.dragging {
                Some(DragKind::Node(n)) => Some(DragKind::EdgeCreation(n)),
                other => other,
            };
        }
    }

    /// The left alt key went down or up.
    pub fn set_lalt(&mut self, pressed: bool)
        ensures
            final(self).is_lalt_pressed == pressed,
            final(self).is_ctrl_pressed == old(self).is_ctrl_pressed,
            final(self).dragging == old(self).dragging,
    {
        self.is_lalt_pressed = pressed;
    }

    pub fn set_dragging(&mut self, dragging: Option<DragKind>)
        ensures
            final(self).dragging == dragging,
            final(self).is_ctrl_pressed == old(self).is_ctrl_pressed,
            final(self).is_lalt_pressed == old(self).is_lalt_pressed,
    {
        self.dragging = dragging;
    }

    /// The button went down with the pointer over node `hit`, if any: with
    /// left alt held a node is added; else a node under the pointer is taken,
    /// to draw an edge from if ctrl is held, to move if not.
    pub fn press(&mut self, hit: Option<u32>) -> (r: PressAction)
        ensures
            final(self).is_ctrl_pressed == old(self).is_ctrl_pressed,
            final(self).is_lalt_pressed == old(self).is_lalt_pressed,
            r == (if old(self).is_lalt_pressed {
                PressAction::AddNode
            } else {
                match hit {
                    Some(i) => PressAction::Grab(
                        if old(self).is_ctrl_pressed {
                            DragKind::EdgeCreation(i)
                        } else {
                            DragKind::Node(i)
                        },
                    ),
                    None => PressAction::Ignore,
                }
            }),
            final(self).dragging == (match r {
                PressAction::Grab(d) => Some(d),
                _ => old(self).dragging,
            }),
    {
        if self.is_lalt_pressed {
            return PressAction::AddNode;
        }
        match hit {
            Some(i) => {
                let d = if self.is_ctrl_pressed {
                    DragKind::EdgeCreation(i)
                } else {
                    DragKind::Node(i)
                };
                self.dragging = Some(d);
                PressAction::Grab(d)
            },
            None => PressAction::Ignore,
        }
    }

    /// The button went up with the pointer over node `hit`, if any: an edge
    /// being drawn from `a` ends there as the edge `(a, hit)`. Either way the
    /// pointer lets go.
    pub fn release(&mut self, hit: Option<u32>) -> (r: Option<(u32, u32)>)
        ensures
            final(self).dragging is None,
            final(self).is_ctrl_pressed == old(self).is_ctrl_pressed,
            final(self).is_lalt_pressed == old(self).is_lalt_pressed,
            r == (match (old(self).dragging, hit) {
                (Some(DragKind::EdgeCreation(a)), Some(b)) => Some((a, b)),
                _ => None,
            }),
    {
        let r = match (self.dragging, hit) {
            (Some(DragKind::EdgeCreation(a)), Some(b)) => Some((a, b)),
            _ => None,
        };
        self.dragging = None;
        r
    }

    /// The node that the simulation must hold still: the one being moved.
    pub open spec fn dragged_node_spec(&self) -> Option<u32> {
        match self.dragging {
            Some(DragKind::Node(n)) => Some(n),
            _ => None,
        }
    }

    pub fn dragged_node(&self) -> (r: Option<u32>)
        ensures
            r == self.dragged_node_spec(),
    {
        match self.dragging {
            Some(DragKind::Node(n)) => Some(n),
            _ => None,
        }
    }
}

} // verus!
