use vstd::prelude::*;

verus! {

/// Interaction state of one node. Positions and radii are kept by the
/// embedding application; the widget core only tracks the flags.
#[derive(Clone, Copy, Debug, PartialEq, Eq, Structural)]
pub struct Node {
    pub selected: bool,
    pub dragged: bool,
    pub selected_child: bool,
    pub selected_parent: bool,
}

/// Interaction state of one edge.
#[derive(Clone, Copy, Debug, PartialEq, Eq, Structural)]
pub struct Edge {
    pub selected: bool,
    pub selected_child: bool,
    pub selected_parent: bool,
}

impl Node {
    /// A node with every flag cleared.
    pub fn new() -> (n: Node)
        ensures
            n == (Node { selected: false, dragged: false, selected_child: false, selected_parent: false }),
    {
        Node { selected: false, dragged: false, selected_child: false, selected_parent: false }
    }

    /// The node as it stands at the start of a frame: highlights cleared,
    /// `selected` and `dragged` kept.
    pub open spec fn cleared(self) -> Node {
        Node { selected_child: false, selected_parent: false, ..self }
    }

    /// Clears the per-frame highlight flags.
    pub fn reset_precalculated(&mut self)
        ensures
            *final(self) == old(self).cleared(),
    {
        self.selected_child = false;
        self.selected_parent = false;
    }
}

impl Edge {
    /// An edge with every flag cleared.
    pub fn new() -> (e: Edge)
        ensures
            e == (Edge { selected: false, selected_child: false, selected_parent: false }),
    {
        Edge { selected: false, selected_child: false, selected_parent: false }
    }

    /// The edge as it stands at the start of a frame.
    pub open spec fn cleared(self) -> Edge {
        Edge { selected_child: false, selected_parent: false, ..self }
    }

    /// Clears the per-frame highlight flags.
    pub fn reset_precalculated(&mut self)
        ensures
            *final(self) == old(self).cleared(),
    {
        self.selected_child = false;
        self.selected_parent = false;
    }
}

} // verus!
