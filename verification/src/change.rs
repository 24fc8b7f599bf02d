use vstd::prelude::*;

verus! {

/// One mutation of a node's interaction state, with the value before and
/// after it.
#[derive(Clone, Copy, Debug, PartialEq, Eq, Structural)]
pub enum ChangeNode {
    Selected { id: u32, old: bool, new: bool },
    Dragged { id: u32, old: bool, new: bool },
}

/// One mutation of an edge's interaction state.
#[derive(Clone, Copy, Debug, PartialEq, Eq, Structural)]
pub enum ChangeEdge {
    Selected { id: u32, old: bool, new: bool },
}

/// A record of one field mutation performed by the widget.
#[derive(Clone, Copy, Debug, PartialEq, Eq, Structural)]
pub enum Change {
    Node(ChangeNode),
    Edge(ChangeEdge),
}

impl ChangeNode {
    pub fn change_selected(id: u32, old: bool, new: bool) -> (c: ChangeNode)
        ensures
            c == (ChangeNode::Selected { id, old, new }),
    {
        ChangeNode::Selected { id, old, new }
    }

    pub fn change_dragged(id: u32, old: bool, new: bool) -> (c: ChangeNode)
        ensures
            c == (ChangeNode::Dragged { id, old, new }),
    {
        ChangeNode::Dragged { id, old, new }
    }
}

impl ChangeEdge {
    pub fn change_selected(id: u32, old: bool, new: bool) -> (c: ChangeEdge)
        ensures
            c == (ChangeEdge::Selected { id, old, new }),
    {
        ChangeEdge::Selected { id, old, new }
    }
}

impl Change {
    pub fn node(change: ChangeNode) -> (c: Change)
        ensures
            c == Change::Node(change),
    {
        Change::Node(change)
    }

    pub fn edge(change: ChangeEdge) -> (c: Change)
        ensures
            c == Change::Edge(change),
    {
        Change::Edge(change)
    }

    /// The record of a node being deselected.
    pub open spec fn node_deselected(id: u32) -> Change {
        Change::Node(ChangeNode::Selected { id, old: true, new: false })
    }

    /// The record of an edge being deselected.
    pub open spec fn edge_deselected(id: u32) -> Change {
        Change::Edge(ChangeEdge::Selected { id, old: true, new: false })
    }
}

} // verus!
