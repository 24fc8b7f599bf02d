//! What each input does to the flags of the graph, and which change records
//! it gives rise to, stated over the graph's nodes and edges.

use vstd::prelude::*;
use crate::change::{Change, ChangeNode};
use crate::elements::{Edge, Node};
use crate::frame_state::{selected_edges, selected_nodes};
use crate::ids::{all_ids_in, lemma_ids_in_contains};
use crate::settings::{SettingsInteraction, SettingsNavigation};

verus! {

/// A node after it was deselected: only `dragged` is kept.
pub open spec fn deselected_node(n: Node) -> Node {
    Node { selected: false, dragged: n.dragged, selected_child: false, selected_parent: false }
}

/// An edge after it was deselected.
pub open spec fn deselected_edge(e: Edge) -> Edge {
    Edge { selected: false, selected_child: false, selected_parent: false }
}

/// The nodes after every selected one was deselected.
pub open spec fn deselected_nodes(nodes: Map<u32, Node>) -> Map<u32, Node> {
    Map::new(
        |k: u32| nodes.contains_key(k),
        |k: u32|
            if nodes[k].selected {
                deselected_node(nodes[k])
            } else {
                nodes[k]
            },
    )
}

/// The edges after every selected one was deselected.
pub open spec fn deselected_edges(edges: Map<u32, (u32, u32, Edge)>) -> Map<
    u32,
    (u32, u32, Edge),
> {
    Map::new(
        |k: u32| edges.contains_key(k),
        |k: u32|
            if edges[k].2.selected {
                (edges[k].0, edges[k].1, deselected_edge(edges[k].2))
            } else {
                edges[k]
            },
    )
}

/// The records of deselecting the selected nodes, by ascending index.
pub open spec fn node_deselections(nodes: Map<u32, Node>) -> Seq<Change> {
    all_ids_in(selected_nodes(nodes)).map_values(|k: u32| Change::node_deselected(k))
}

/// The records of deselecting the selected edges, by ascending index.
pub open spec fn edge_deselections(edges: Map<u32, (u32, u32, Edge)>) -> Seq<Change> {
    all_ids_in(selected_edges(edges)).map_values(|k: u32| Change::edge_deselected(k))
}

/// The records of deselecting everything: the nodes first, then the edges.
pub open spec fn deselect_changes(
    nodes: Map<u32, Node>,
    edges: Map<u32, (u32, u32, Edge)>,
) -> Seq<Change> {
    node_deselections(nodes) + edge_deselections(edges)
}

/// The nodes with the `selected` flag of node `idx` set to `val`.
pub open spec fn with_selected(nodes: Map<u32, Node>, idx: u32, val: bool) -> Map<u32, Node> {
    nodes.insert(idx, Node { selected: val, ..nodes[idx] })
}

/// The nodes with the `dragged` flag of node `idx` set to `val`.
pub open spec fn with_dragged(nodes: Map<u32, Node>, idx: u32, val: bool) -> Map<u32, Node> {
    nodes.insert(idx, Node { dragged: val, ..nodes[idx] })
}

/// The edges with the `selected` flag of edge `idx` set to `val`.
pub open spec fn with_edge_selected(edges: Map<u32, (u32, u32, Edge)>, idx: u32, val: bool) -> Map<
    u32,
    (u32, u32, Edge),
> {
    edges.insert(idx, (edges[idx].0, edges[idx].1, Edge { selected: val, ..edges[idx].2 }))
}

/// The record of setting the `selected` flag of node `idx` to `val`.
pub open spec fn selection_change(nodes: Map<u32, Node>, idx: u32, val: bool) -> Change {
    Change::Node(ChangeNode::Selected { id: idx, old: nodes[idx].selected, new: val })
}

/// The record of setting the `dragged` flag of node `idx` to `val`.
pub open spec fn drag_change(nodes: Map<u32, Node>, idx: u32, val: bool) -> Change {
    Change::Node(ChangeNode::Dragged { id: idx, old: nodes[idx].dragged, new: val })
}

/// A click on node `idx` replaces the selection: selection is enabled, the
/// node is not selected, and selections do not add up.
pub open spec fn click_replaces(si: SettingsInteraction, nodes: Map<u32, Node>, idx: u32) -> bool {
    si.node_select && !nodes[idx].selected && !si.node_multiselect
}

/// The nodes after a click on node `idx`.
pub open spec fn node_click_nodes(si: SettingsInteraction, nodes: Map<u32, Node>, idx: u32) -> Map<
    u32,
    Node,
> {
    if !si.node_select {
        nodes
    } else if nodes[idx].selected {
        with_selected(nodes, idx, false)
    } else if si.node_multiselect {
        with_selected(nodes, idx, true)
    } else {
        with_selected(deselected_nodes(nodes), idx, true)
    }
}

/// The edges after a click on node `idx`.
pub open spec fn node_click_edges(
    si: SettingsInteraction,
    nodes: Map<u32, Node>,
    edges: Map<u32, (u32, u32, Edge)>,
    idx: u32,
) -> Map<u32, (u32, u32, Edge)> {
    if click_replaces(si, nodes, idx) {
        deselected_edges(edges)
    } else {
        edges
    }
}

/// The records that a click on node `idx` gives rise to, in order.
pub open spec fn node_click_changes(
    si: SettingsInteraction,
    nodes: Map<u32, Node>,
    edges: Map<u32, (u32, u32, Edge)>,
    idx: u32,
) -> Seq<Change> {
    if !si.node_select {
        Seq::empty()
    } else if nodes[idx].selected {
        seq![selection_change(nodes, idx, false)]
    } else if si.node_multiselect {
        seq![selection_change(nodes, idx, true)]
    } else {
        deselect_changes(nodes, edges).push(selection_change(nodes, idx, true))
    }
}

/// Clicks are handled at all.
pub open spec fn clickable(si: SettingsInteraction) -> bool {
    si.node_click || si.node_select || si.node_multiselect
}

/// A click on empty space clears the selection.
pub open spec fn selectable(si: SettingsInteraction) -> bool {
    si.node_select || si.node_multiselect
}

/// The click input reads the state of the node under the pointer: there
/// was a click on a node, and a click selects.
pub open spec fn click_reads(si: SettingsInteraction, clicked: bool, hit: Option<u32>) -> bool {
    clicked && si.node_select && hit is Some
}

/// The nodes after the click input of a frame: `hit` is the node under the
/// pointer.
pub open spec fn click_nodes(
    si: SettingsInteraction,
    nodes: Map<u32, Node>,
    clicked: bool,
    hit: Option<u32>,
) -> Map<u32, Node> {
    if !clicked || !clickable(si) {
        nodes
    } else {
        match hit {
            Some(idx) => node_click_nodes(si, nodes, idx),
            None => if selectable(si) {
                deselected_nodes(nodes)
            } else {
                nodes
            },
        }
    }
}

/// The edges after the click input of a frame.
pub open spec fn click_edges(
    si: SettingsInteraction,
    nodes: Map<u32, Node>,
    edges: Map<u32, (u32, u32, Edge)>,
    clicked: bool,
    hit: Option<u32>,
) -> Map<u32, (u32, u32, Edge)> {
    if !clicked || !clickable(si) {
        edges
    } else {
        match hit {
            Some(idx) => node_click_edges(si, nodes, edges, idx),
            None => if selectable(si) {
                deselected_edges(edges)
            } else {
                edges
            },
        }
    }
}

/// The records that the click input of a frame gives rise to, in order.
pub open spec fn click_changes(
    si: SettingsInteraction,
    nodes: Map<u32, Node>,
    edges: Map<u32, (u32, u32, Edge)>,
    clicked: bool,
    hit: Option<u32>,
) -> Seq<Change> {
    if !clicked || !clickable(si) {
        Seq::empty()
    } else {
        match hit {
            Some(idx) => node_click_changes(si, nodes, edges, idx),
            None => if selectable(si) {
                deselect_changes(nodes, edges)
            } else {
                Seq::empty()
            },
        }
    }
}

/// The drag input of one frame.
#[derive(Clone, Copy, Debug, PartialEq, Eq, Structural)]
pub struct DragInput {
    /// A drag started in this frame.
    pub started: bool,
    /// A drag is going on.
    pub dragged: bool,
    /// A drag ended in this frame.
    pub released: bool,
    /// The node under the pointer, if any.
    pub hit: Option<u32>,
}

/// What the drag input of one frame led to, in the order in which it
/// happened.
#[derive(Clone, Copy, Debug, PartialEq, Eq, Structural)]
pub struct DragOutcome {
    /// The record of a node picked up.
    pub started: Option<Change>,
    /// The node to move by the pointer's travel, scaled to graph units.
    pub moved: Option<u32>,
    /// The record of a node put down.
    pub released: Option<Change>,
}

/// The node picked up by a drag input, if any.
pub open spec fn drag_pick(si: SettingsInteraction, input: DragInput) -> Option<u32> {
    if si.node_drag && input.started {
        input.hit
    } else {
        None
    }
}

/// The frame's dragged node once the drag input was handled.
pub open spec fn drag_target(si: SettingsInteraction, input: DragInput, held: Option<u32>) -> Option<
    u32,
> {
    match drag_pick(si, input) {
        Some(idx) => Some(idx),
        None => held,
    }
}

/// The node put down by a drag input, if any.
pub open spec fn drag_drop(si: SettingsInteraction, input: DragInput, held: Option<u32>) -> Option<
    u32,
> {
    if si.node_drag && input.released {
        drag_target(si, input, held)
    } else {
        None
    }
}

/// The nodes once a picked-up node was flagged.
pub open spec fn picked_nodes(si: SettingsInteraction, nodes: Map<u32, Node>, input: DragInput) -> Map<
    u32,
    Node,
> {
    match drag_pick(si, input) {
        Some(idx) => with_dragged(nodes, idx, true),
        None => nodes,
    }
}

/// The nodes after the drag input of a frame.
pub open spec fn drag_nodes(
    si: SettingsInteraction,
    nodes: Map<u32, Node>,
    input: DragInput,
    held: Option<u32>,
) -> Map<u32, Node> {
    match drag_drop(si, input, held) {
        Some(idx) => with_dragged(picked_nodes(si, nodes, input), idx, false),
        None => picked_nodes(si, nodes, input),
    }
}

/// What the drag input of a frame leads to.
pub open spec fn drag_outcome(
    si: SettingsInteraction,
    nodes: Map<u32, Node>,
    input: DragInput,
    held: Option<u32>,
) -> DragOutcome {
    DragOutcome {
        started: match drag_pick(si, input) {
            Some(idx) => Some(drag_change(nodes, idx, true)),
            None => None,
        },
        moved: if si.node_drag && input.dragged {
            drag_target(si, input, held)
        } else {
            None
        },
        released: match drag_drop(si, input, held) {
            Some(idx) => Some(drag_change(picked_nodes(si, nodes, input), idx, false)),
            None => None,
        },
    }
}

/// What the navigation input of one frame asks of the viewport.
#[derive(Clone, Copy, Debug, PartialEq, Eq, Structural)]
pub enum Navigation {
    /// Snap the view to the graph's bounds.
    Fit,
    /// Zoom about the pointer, pan by the pointer's travel, or neither.
    Adjust { zoom: bool, pan: bool },
}

/// The navigation that a frame's input asks for: `zoom_input` says that a
/// zoom step came in, `dragged` that a drag is going on, `held` is the
/// frame's dragged node.
pub open spec fn navigation_of(
    sn: SettingsNavigation,
    zoom_input: bool,
    dragged: bool,
    held: Option<u32>,
) -> Navigation {
    if sn.fit_to_screen {
        Navigation::Fit
    } else {
        Navigation::Adjust {
            zoom: sn.zoom_and_pan && zoom_input,
            pan: sn.zoom_and_pan && dragged && held is None,
        }
    }
}

/// The input of one frame.
#[derive(Clone, Copy, Debug, PartialEq, Eq, Structural)]
pub struct FrameInput {
    /// The drag input, with the node under the pointer where a drag started.
    pub drag: DragInput,
    /// The widget was clicked.
    pub clicked: bool,
    /// The node under the pointer at the click, if any.
    pub click_hit: Option<u32>,
    /// A zoom step came in.
    pub zoom_input: bool,
}

/// What the input of one frame led to: first the drag, then the click, then
/// the navigation.
pub struct FrameOutcome {
    pub drag: DragOutcome,
    /// The records of the click, in order.
    pub clicks: Vec<Change>,
    pub navigation: Navigation,
}

/// A click on a selected node, with selection enabled, deselects that node
/// and touches nothing else, and it gives exactly one record: that node
/// going from selected to not selected. Whether selections add up plays no
/// part.
pub proof fn lemma_click_deselects_selected(
    si: SettingsInteraction,
    nodes: Map<u32, Node>,
    edges: Map<u32, (u32, u32, Edge)>,
    idx: u32,
)
    requires
        si.node_select,
        nodes.contains_key(idx),
        nodes[idx].selected,
    ensures
        click_nodes(si, nodes, true, Some(idx)) == nodes.insert(
            idx,
            Node { selected: false, ..nodes[idx] },
        ),
        click_edges(si, nodes, edges, true, Some(idx)) == edges,
        click_changes(si, nodes, edges, true, Some(idx)) == seq![
            Change::Node(ChangeNode::Selected { id: idx, old: true, new: false }),
        ],
{
}

/// A click on empty space, with selection enabled, leaves no node and no
/// edge selected, and it gives one record for each element that was
/// selected: as many records as there were selected nodes and edges, the
/// record of each selected element among them.
pub proof fn lemma_empty_click_deselects_all(
    si: SettingsInteraction,
    nodes: Map<u32, Node>,
    edges: Map<u32, (u32, u32, Edge)>,
)
    requires
        selectable(si),
    ensures
        selected_nodes(click_nodes(si, nodes, true, None)) == Set::<u32>::empty(),
        selected_edges(click_edges(si, nodes, edges, true, None)) == Set::<u32>::empty(),
        click_changes(si, nodes, edges, true, None).len() == all_ids_in(selected_nodes(nodes)).len()
            + all_ids_in(selected_edges(edges)).len(),
        forall|k: u32| #[trigger]
            selected_nodes(nodes).contains(k) ==> click_changes(si, nodes, edges, true, None).contains(
                Change::node_deselected(k),
            ),
        forall|k: u32| #[trigger]
            selected_edges(edges).contains(k) ==> click_changes(si, nodes, edges, true, None).contains(
                Change::edge_deselected(k),
            ),
{
    let changes = click_changes(si, nodes, edges, true, None);
    let ns = all_ids_in(selected_nodes(nodes));
    let es = all_ids_in(selected_edges(edges));
    assert(changes == deselect_changes(nodes, edges));
    assert(selected_nodes(click_nodes(si, nodes, true, None)) =~= Set::<u32>::empty());
    assert(selected_edges(click_edges(si, nodes, edges, true, None)) =~= Set::<u32>::empty());
    assert forall|k: u32| #[trigger] selected_nodes(nodes).contains(k) implies changes.contains(
        Change::node_deselected(k),
    ) by {
        lemma_ids_in_contains(selected_nodes(nodes), 0x1_0000_0000, k);
        let i = choose|i: int| 0 <= i < ns.len() && ns[i] == k;
        assert(changes[i] == Change::node_deselected(k));
    }
    assert forall|k: u32| #[trigger] selected_edges(edges).contains(k) implies changes.contains(
        Change::edge_deselected(k),
    ) by {
        lemma_ids_in_contains(selected_edges(edges), 0x1_0000_0000, k);
        let i = choose|i: int| 0 <= i < es.len() && es[i] == k;
        assert(changes[ns.len() + i] == Change::edge_deselected(k));
    }
}

} // verus!
