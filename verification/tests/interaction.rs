use egui_graphs::change::{Change, ChangeEdge, ChangeNode};
use egui_graphs::edge_groups::edges_by_nodes;
use egui_graphs::elements::{Edge, Node};
use egui_graphs::frame_state::FrameState;
use egui_graphs::graph_view::GraphView;
use egui_graphs::interaction::{DragInput, DragOutcome, FrameInput, Navigation};
use egui_graphs::selections::{collect_generations, Selections};
use egui_graphs::settings::{SettingsInteraction, SettingsNavigation};
use egui_graphs::sink::{after_answer, send_all};
use petgraph::stable_graph::{EdgeIndex, NodeIndex, StableGraph};

fn chain() -> StableGraph<Node, Edge> {
    let mut g = StableGraph::<Node, Edge>::new();
    let a = g.add_node(Node::new());
    let b = g.add_node(Node::new());
    let c = g.add_node(Node::new());
    g.add_edge(a, b, Edge::new());
    g.add_edge(b, c, Edge::new());
    g
}

fn triangle() -> StableGraph<Node, Edge> {
    let mut g = StableGraph::<Node, Edge>::new();
    let n0 = g.add_node(Node::new());
    let n1 = g.add_node(Node::new());
    let n2 = g.add_node(Node::new());
    g.add_edge(n0, n1, Edge::new());
    g.add_edge(n0, n2, Edge::new());
    g.add_edge(n1, n2, Edge::new());
    g
}

fn select(g: &mut StableGraph<Node, Edge>, idx: usize) {
    g.node_weight_mut(NodeIndex::new(idx)).unwrap().selected = true;
}

fn interactions(select: bool, multi: bool, depth: i32) -> SettingsInteraction {
    SettingsInteraction {
        node_click: true,
        node_select: select,
        node_multiselect: multi,
        node_drag: true,
        selection_depth: depth,
    }
}

fn sorted(v: &[u32]) -> Vec<u32> {
    let mut s = v.to_vec();
    s.sort();
    s
}

fn quiet() -> DragInput {
    DragInput { started: false, dragged: false, released: false, hit: None }
}

#[test]
fn new_view_has_default_settings() {
    let view = GraphView::new(chain());
    assert_eq!(view.settings_interaction, SettingsInteraction::default());
    assert_eq!(view.settings_navigation, SettingsNavigation::default());
    assert!(!view.settings_interaction.node_select);
    assert_eq!(view.settings_interaction.selection_depth, 0);
    assert!(view.settings_navigation.fit_to_screen);
    assert!(!view.settings_navigation.zoom_and_pan);
    assert_eq!(view.node(0), Some(Node::new()));
    assert_eq!(view.node(3), None);
    assert_eq!(view.edge(1), Some(Edge::new()));
    assert_eq!(view.edge(2), None);
}

#[test]
fn builders_replace_settings() {
    let si = interactions(true, true, 4);
    let sn = SettingsNavigation { fit_to_screen: false, zoom_and_pan: true };
    let view = GraphView::new(chain()).with_interactions(&si).with_navigations(&sn);
    assert_eq!(view.settings_interaction, si);
    assert_eq!(view.settings_navigation, sn);
    let g = view.into_graph();
    assert_eq!(g.node_count(), 3);
    assert_eq!(g.edge_count(), 2);
}

#[test]
fn depth_one_marks_direct_children_only() {
    let mut g = chain();
    select(&mut g, 0);
    let mut view = GraphView::new(g).with_interactions(&interactions(true, false, 1));
    let state = view.precompute_state();
    let b = view.node(1).unwrap();
    assert!(b.selected_child);
    assert!(!b.selected_parent);
    assert!(view.edge(0).unwrap().selected_child);
    let c = view.node(2).unwrap();
    assert!(!c.selected_child && !c.selected_parent);
    let bc = view.edge(1).unwrap();
    assert!(!bc.selected_child && !bc.selected_parent);
    let a = view.node(0).unwrap();
    assert!(a.selected);
    assert!(!a.selected_child && !a.selected_parent);
    assert_eq!(state.selections.entries.len(), 1);
    assert_eq!(state.selections.entries[0].root, 0);
    assert_eq!(state.selections.entries[0].nodes, vec![1]);
    assert_eq!(state.selections.entries[0].edges, vec![0]);
    assert_eq!(state.dragged, None);
}

#[test]
fn depth_two_reaches_grandchildren() {
    let mut g = chain();
    select(&mut g, 0);
    let mut view = GraphView::new(g).with_interactions(&interactions(true, false, 2));
    let state = view.precompute_state();
    assert!(view.node(1).unwrap().selected_child);
    assert!(view.node(2).unwrap().selected_child);
    assert!(view.edge(0).unwrap().selected_child);
    assert!(view.edge(1).unwrap().selected_child);
    assert_eq!(sorted(&state.selections.entries[0].nodes), vec![1, 2]);
    assert_eq!(sorted(&state.selections.entries[0].edges), vec![0, 1]);
}

#[test]
fn negative_depth_marks_parents() {
    let mut g = chain();
    select(&mut g, 2);
    let mut view = GraphView::new(g).with_interactions(&interactions(true, false, -1));
    view.precompute_state();
    let b = view.node(1).unwrap();
    assert!(b.selected_parent);
    assert!(!b.selected_child);
    let bc = view.edge(1).unwrap();
    assert!(bc.selected_parent && !bc.selected_child);
    let a = view.node(0).unwrap();
    assert!(!a.selected_parent && !a.selected_child);
    assert!(!view.edge(0).unwrap().selected_parent);
}

#[test]
fn depth_zero_spreads_nowhere() {
    let mut g = chain();
    select(&mut g, 1);
    let mut view = GraphView::new(g).with_interactions(&interactions(true, false, 0));
    let state = view.precompute_state();
    for k in 0..3 {
        let n = view.node(k).unwrap();
        assert!(!n.selected_child && !n.selected_parent);
    }
    for k in 0..2 {
        let e = view.edge(k).unwrap();
        assert!(!e.selected_child && !e.selected_parent);
    }
    assert_eq!(state.selections.entries.len(), 1);
    assert_eq!(state.selections.entries[0].root, 1);
    assert!(state.selections.entries[0].nodes.is_empty());
    assert!(state.selections.entries[0].edges.is_empty());
}

#[test]
fn extreme_depths_end_on_small_graphs() {
    let g = triangle();
    let (nodes, edges) = collect_generations(&g, 0, i32::MAX);
    assert_eq!(sorted(&nodes), vec![1, 2]);
    assert_eq!(sorted(&edges), vec![0, 1, 2]);
    let (nodes, edges) = collect_generations(&g, 2, i32::MIN);
    assert_eq!(sorted(&nodes), vec![0, 1]);
    assert_eq!(sorted(&edges), vec![0, 1, 2]);
    let (nodes, edges) = collect_generations(&g, 2, 5);
    assert!(nodes.is_empty());
    assert!(edges.is_empty());
}

#[test]
fn root_on_a_cycle_is_not_its_own_child() {
    let mut g = StableGraph::<Node, Edge>::new();
    let a = g.add_node(Node::new());
    let b = g.add_node(Node::new());
    g.add_edge(a, b, Edge::new());
    g.add_edge(b, a, Edge::new());
    g.add_edge(a, a, Edge::new());
    let (nodes, edges) = collect_generations(&g, 0, 1);
    assert_eq!(nodes, vec![1]);
    assert_eq!(sorted(&edges), vec![0, 2]);
    let (nodes, edges) = collect_generations(&g, 0, 2);
    assert_eq!(nodes, vec![1]);
    assert_eq!(sorted(&edges), vec![0, 1, 2]);
}

#[test]
fn removed_elements_leave_gaps() {
    let mut g = triangle();
    let extra = g.add_node(Node::new());
    g.add_edge(NodeIndex::new(2), extra, Edge::new());
    g.remove_node(NodeIndex::new(1));
    // left: nodes 0, 2, 3; edges 1 (0 -> 2) and 3 (2 -> 3)
    select(&mut g, 0);
    let mut view = GraphView::new(g).with_interactions(&interactions(true, false, 2));
    let state = view.precompute_state();
    assert_eq!(view.node(1), None);
    assert_eq!(view.edge(0), None);
    assert_eq!(view.edge(2), None);
    assert!(view.node(2).unwrap().selected_child);
    assert!(view.node(3).unwrap().selected_child);
    assert!(view.edge(1).unwrap().selected_child);
    assert!(view.edge(3).unwrap().selected_child);
    assert_eq!(sorted(&state.selections.entries[0].nodes), vec![2, 3]);
    assert_eq!(sorted(&state.selections.entries[0].edges), vec![1, 3]);
}

#[test]
fn selections_come_by_ascending_root() {
    let mut g = triangle();
    select(&mut g, 2);
    select(&mut g, 0);
    let mut view = GraphView::new(g).with_interactions(&interactions(true, true, 1));
    let state = view.precompute_state();
    assert_eq!(state.selections.entries.len(), 2);
    assert_eq!(state.selections.entries[0].root, 0);
    assert_eq!(state.selections.entries[1].root, 2);
    assert_eq!(sorted(&state.selections.entries[0].nodes), vec![1, 2]);
    assert!(state.selections.entries[1].nodes.is_empty());
    let (nodes, edges) = state.selections.elements_by_root(0).unwrap();
    assert_eq!(sorted(nodes), vec![1, 2]);
    assert_eq!(sorted(edges), vec![0, 1]);
    assert!(state.selections.elements_by_root(1).is_none());
    assert!(state.selections.node_reached(1));
    assert!(!state.selections.node_reached(0));
    assert!(state.selections.edge_reached(0));
    assert!(!state.selections.edge_reached(2));
    // a selected node that another one reaches is highlighted too
    let n2 = view.node(2).unwrap();
    assert!(n2.selected && n2.selected_child);
}

#[test]
fn add_selection_appends() {
    let g = chain();
    let mut s = Selections::new();
    assert!(s.entries.is_empty());
    s.add_selection(&g, 0, 1);
    s.add_selection(&g, 1, -1);
    assert_eq!(s.entries.len(), 2);
    assert_eq!(s.entries[0].root, 0);
    assert_eq!(s.entries[0].nodes, vec![1]);
    assert_eq!(s.entries[1].root, 1);
    assert_eq!(s.entries[1].nodes, vec![0]);
    assert_eq!(s.entries[1].edges, vec![0]);
}

#[test]
fn precompute_clears_stale_highlights_and_keeps_flags() {
    let mut g = chain();
    {
        let n = g.node_weight_mut(NodeIndex::new(2)).unwrap();
        n.selected_child = true;
        n.selected_parent = true;
        n.dragged = true;
    }
    {
        let e = g.edge_weight_mut(EdgeIndex::new(1)).unwrap();
        e.selected_parent = true;
        e.selected = true;
    }
    let mut view = GraphView::new(g).with_interactions(&interactions(true, false, 1));
    let state = view.precompute_state();
    assert_eq!(
        view.node(2),
        Some(Node { selected: false, dragged: true, selected_child: false, selected_parent: false })
    );
    assert_eq!(
        view.edge(1),
        Some(Edge { selected: true, selected_child: false, selected_parent: false })
    );
    assert_eq!(state.dragged, Some(2));
    assert!(state.selections.entries.is_empty());
}

#[test]
fn precompute_twice_gives_the_same() {
    let mut g = triangle();
    select(&mut g, 0);
    let mut view = GraphView::new(g).with_interactions(&interactions(true, false, 1));
    let first = view.precompute_state();
    let nodes_first: Vec<Option<Node>> = (0..3).map(|k| view.node(k)).collect();
    let edges_first: Vec<Option<Edge>> = (0..3).map(|k| view.edge(k)).collect();
    let second = view.precompute_state();
    let nodes_second: Vec<Option<Node>> = (0..3).map(|k| view.node(k)).collect();
    let edges_second: Vec<Option<Edge>> = (0..3).map(|k| view.edge(k)).collect();
    assert_eq!(nodes_first, nodes_second);
    assert_eq!(edges_first, edges_second);
    assert_eq!(first.dragged, second.dragged);
    assert_eq!(first.selections.entries.len(), second.selections.entries.len());
    assert_eq!(first.selections.entries[0].root, second.selections.entries[0].root);
    assert_eq!(first.selections.entries[0].nodes, second.selections.entries[0].nodes);
    assert_eq!(first.selections.entries[0].edges, second.selections.entries[0].edges);
}

#[test]
fn click_on_selected_node_deselects_it() {
    let mut g = chain();
    select(&mut g, 1);
    for multi in [false, true] {
        let mut view = GraphView::new(g.clone()).with_interactions(&interactions(true, multi, 1));
        view.precompute_state();
        let changes = view.handle_click(true, Some(1));
        assert_eq!(
            changes,
            vec![Change::Node(ChangeNode::Selected { id: 1, old: true, new: false })]
        );
        assert!(!view.node(1).unwrap().selected);
    }
}

#[test]
fn click_on_empty_space_deselects_everything() {
    let mut g = triangle();
    select(&mut g, 0);
    select(&mut g, 2);
    g.edge_weight_mut(EdgeIndex::new(1)).unwrap().selected = true;
    let mut view = GraphView::new(g).with_interactions(&interactions(true, false, 1));
    view.precompute_state();
    let changes = view.handle_click(true, None);
    assert_eq!(
        changes,
        vec![
            Change::Node(ChangeNode::Selected { id: 0, old: true, new: false }),
            Change::Node(ChangeNode::Selected { id: 2, old: true, new: false }),
            Change::Edge(ChangeEdge::Selected { id: 1, old: true, new: false }),
        ]
    );
    for k in 0..3 {
        assert!(!view.node(k).unwrap().selected);
        assert!(!view.edge(k).unwrap().selected);
    }
    // the deselected elements lose their highlights as well
    assert!(!view.node(2).unwrap().selected_child);
    // a second click finds nothing to deselect
    assert!(view.handle_click(true, None).is_empty());
}

#[test]
fn click_replaces_selection_without_multiselect() {
    let mut g = chain();
    select(&mut g, 0);
    let mut view = GraphView::new(g).with_interactions(&interactions(true, false, 0));
    let changes = view.handle_click(true, Some(2));
    assert_eq!(
        changes,
        vec![
            Change::Node(ChangeNode::Selected { id: 0, old: true, new: false }),
            Change::Node(ChangeNode::Selected { id: 2, old: false, new: true }),
        ]
    );
    assert!(!view.node(0).unwrap().selected);
    assert!(view.node(2).unwrap().selected);
}

#[test]
fn click_adds_to_selection_with_multiselect() {
    let mut g = chain();
    select(&mut g, 0);
    let mut view = GraphView::new(g).with_interactions(&interactions(true, true, 0));
    let changes = view.handle_node_click(2);
    assert_eq!(changes, vec![Change::Node(ChangeNode::Selected { id: 2, old: false, new: true })]);
    assert!(view.node(0).unwrap().selected);
    assert!(view.node(2).unwrap().selected);
}

#[test]
fn clicks_are_ignored_where_switched_off() {
    let mut g = chain();
    select(&mut g, 0);
    // no click in this frame
    let mut view = GraphView::new(g.clone()).with_interactions(&interactions(true, false, 0));
    assert!(view.handle_click(false, Some(0)).is_empty());
    assert!(view.node(0).unwrap().selected);
    // nothing clickable
    let off = SettingsInteraction {
        node_click: false,
        node_select: false,
        node_multiselect: false,
        node_drag: true,
        selection_depth: 0,
    };
    let mut view = GraphView::new(g.clone()).with_interactions(&off);
    assert!(view.handle_click(true, None).is_empty());
    assert!(view.handle_click(true, Some(0)).is_empty());
    assert!(view.node(0).unwrap().selected);
    // clickable but not selectable
    let mut view = GraphView::new(g.clone()).with_interactions(&interactions(false, false, 0));
    assert!(view.handle_click(true, None).is_empty());
    assert!(view.handle_click(true, Some(0)).is_empty());
    assert!(view.node(0).unwrap().selected);
    // multiselect alone clears on empty space but does not select
    let mut view = GraphView::new(g).with_interactions(&interactions(false, true, 0));
    assert!(view.handle_click(true, Some(1)).is_empty());
    assert!(!view.node(1).unwrap().selected);
    assert_eq!(view.handle_click(true, None).len(), 1);
    assert!(!view.node(0).unwrap().selected);
}

#[test]
fn setters_report_old_and_new() {
    let mut view = GraphView::new(chain());
    assert_eq!(
        view.set_node_selected(1, true),
        Change::Node(ChangeNode::Selected { id: 1, old: false, new: true })
    );
    assert_eq!(
        view.set_node_selected(1, true),
        Change::Node(ChangeNode::Selected { id: 1, old: true, new: true })
    );
    assert_eq!(
        view.set_edge_selected(0, true),
        Change::Edge(ChangeEdge::Selected { id: 0, old: false, new: true })
    );
    assert_eq!(
        view.set_dragged(2, true),
        Change::Node(ChangeNode::Dragged { id: 2, old: false, new: true })
    );
    assert!(view.node(1).unwrap().selected);
    assert!(view.edge(0).unwrap().selected);
    assert!(view.node(2).unwrap().dragged);
    assert!(!view.node(2).unwrap().selected);
    assert_eq!(view.deselect_all().len(), 2);
    assert!(view.node(2).unwrap().dragged);
}

#[test]
fn drag_picks_moves_and_drops() {
    let mut view = GraphView::new(chain()).with_interactions(&interactions(true, false, 0));
    let mut state: FrameState = view.precompute_state();
    let out = view.handle_nodes_drags(
        DragInput { started: true, dragged: true, released: false, hit: Some(1) },
        &mut state,
    );
    assert_eq!(
        out,
        DragOutcome {
            started: Some(Change::Node(ChangeNode::Dragged { id: 1, old: false, new: true })),
            moved: Some(1),
            released: None,
        }
    );
    assert_eq!(state.dragged, Some(1));
    assert!(view.node(1).unwrap().dragged);

    let mut state = view.precompute_state();
    assert_eq!(state.dragged, Some(1));
    let out = view.handle_nodes_drags(
        DragInput { started: false, dragged: true, released: false, hit: None },
        &mut state,
    );
    assert_eq!(out, DragOutcome { started: None, moved: Some(1), released: None });

    let mut state = view.precompute_state();
    let out = view.handle_nodes_drags(
        DragInput { started: false, dragged: false, released: true, hit: None },
        &mut state,
    );
    assert_eq!(
        out,
        DragOutcome {
            started: None,
            moved: None,
            released: Some(Change::Node(ChangeNode::Dragged { id: 1, old: true, new: false })),
        }
    );
    assert!(!view.node(1).unwrap().dragged);
    assert_eq!(view.precompute_state().dragged, None);
}

#[test]
fn drag_on_empty_space_or_switched_off_does_nothing() {
    let mut view = GraphView::new(chain()).with_interactions(&interactions(true, false, 0));
    let mut state = view.precompute_state();
    let out = view.handle_nodes_drags(
        DragInput { started: true, dragged: true, released: true, hit: None },
        &mut state,
    );
    assert_eq!(out, DragOutcome { started: None, moved: None, released: None });
    assert_eq!(state.dragged, None);
    assert_eq!(view.handle_nodes_drags(quiet(), &mut state).moved, None);

    let off = SettingsInteraction { node_drag: false, ..interactions(true, false, 0) };
    let mut view = GraphView::new(chain()).with_interactions(&off);
    let mut state = view.precompute_state();
    let out = view.handle_nodes_drags(
        DragInput { started: true, dragged: true, released: true, hit: Some(0) },
        &mut state,
    );
    assert_eq!(out, DragOutcome { started: None, moved: None, released: None });
    assert_eq!(state.dragged, None);
    assert!(!view.node(0).unwrap().dragged);
}

#[test]
fn navigation_decisions() {
    let mut view = GraphView::new(chain());
    let free = view.precompute_state();
    assert_eq!(view.handle_navigation(true, true, &free), Navigation::Fit);

    let sn = SettingsNavigation { fit_to_screen: false, zoom_and_pan: true };
    let mut view = GraphView::new(chain()).with_navigations(&sn);
    let free = view.precompute_state();
    assert_eq!(
        view.handle_navigation(true, true, &free),
        Navigation::Adjust { zoom: true, pan: true }
    );
    assert_eq!(
        view.handle_navigation(false, false, &free),
        Navigation::Adjust { zoom: false, pan: false }
    );
    view.set_dragged(0, true);
    let held = view.precompute_state();
    assert_eq!(
        view.handle_navigation(true, true, &held),
        Navigation::Adjust { zoom: true, pan: false }
    );
    assert!(view.handle_zoom(true));
    assert!(!view.handle_zoom(false));
    assert!(!view.handle_pan(true, &held));
    assert!(view.handle_pan(true, &free));

    let sn = SettingsNavigation { fit_to_screen: false, zoom_and_pan: false };
    let view = GraphView::new(chain()).with_navigations(&sn);
    assert_eq!(
        view.handle_navigation(true, true, &free),
        Navigation::Adjust { zoom: false, pan: false }
    );
}

#[test]
fn reset_clears_highlights_only() {
    let mut n = Node { selected: true, dragged: true, selected_child: true, selected_parent: true };
    n.reset_precalculated();
    assert_eq!(
        n,
        Node { selected: true, dragged: true, selected_child: false, selected_parent: false }
    );
    let mut e = Edge { selected: true, selected_child: true, selected_parent: true };
    e.reset_precalculated();
    assert_eq!(e, Edge { selected: true, selected_child: false, selected_parent: false });
}

#[test]
fn parallel_edges_are_grouped_by_pair() {
    let mut g = StableGraph::<Node, Edge>::new();
    let a = g.add_node(Node::new());
    let b = g.add_node(Node::new());
    let c = g.add_node(Node::new());
    g.add_edge(b, a, Edge::new());
    g.add_edge(b, c, Edge::new());
    g.add_edge(a, b, Edge::new());
    g.add_edge(c, c, Edge::new());
    g.add_edge(a, b, Edge::new());
    let groups = edges_by_nodes(&g);
    assert_eq!(groups.len(), 3);
    assert_eq!((groups[0].start, groups[0].end), (0, 1));
    assert_eq!(groups[0].edges, vec![0, 2, 4]);
    assert_eq!((groups[1].start, groups[1].end), (1, 2));
    assert_eq!(groups[1].edges, vec![1]);
    assert_eq!((groups[2].start, groups[2].end), (2, 2));
    assert_eq!(groups[2].edges, vec![3]);

    let mut view = GraphView::new(g);
    let state = view.precompute_state();
    assert_eq!(state.edges_by_nodes.len(), 3);
    assert_eq!(state.edges_by_nodes[0].edges, vec![0, 2, 4]);
    assert!(edges_by_nodes(&StableGraph::<Node, Edge>::new()).is_empty());
}

#[test]
fn changes_reach_the_sink_in_order() {
    let (tx, rx) = std::sync::mpsc::channel::<Change>();
    let mut g = triangle();
    select(&mut g, 0);
    select(&mut g, 1);
    let mut view =
        GraphView::new(g).with_interactions(&interactions(true, false, 1)).with_changes(&tx);
    let changes = view.handle_click(true, None);
    assert_eq!(view.send_changes(&changes), 2);
    assert_eq!(rx.try_recv(), Ok(Change::Node(ChangeNode::Selected { id: 0, old: true, new: false })));
    assert_eq!(rx.try_recv(), Ok(Change::Node(ChangeNode::Selected { id: 1, old: true, new: false })));
    assert!(rx.try_recv().is_err());
    assert_eq!(send_all(Some(&tx), &changes), 2);
    assert_eq!(rx.try_iter().count(), 2);
}

#[test]
fn changes_without_a_sink_are_dropped() {
    let mut view = GraphView::new(chain());
    let change = view.set_node_selected(0, true);
    assert_eq!(view.send_changes(&vec![change]), 0);
    assert_eq!(send_all(None, &vec![change, change]), 0);
}

#[test]
fn a_closed_sink_takes_nothing() {
    let (tx, rx) = std::sync::mpsc::channel::<Change>();
    drop(rx);
    let mut view = GraphView::new(chain()).with_changes(&tx);
    let change = view.set_dragged(0, true);
    assert_eq!(view.send_changes(&vec![change, change]), 0);
    assert!(view.node(0).unwrap().dragged);
}

#[test]
fn a_frame_handles_drag_then_click_then_navigation() {
    let sn = SettingsNavigation { fit_to_screen: false, zoom_and_pan: true };
    let mut g = chain();
    select(&mut g, 0);
    let mut view = GraphView::new(g)
        .with_interactions(&interactions(true, false, 1))
        .with_navigations(&sn);
    let mut state = view.precompute_state();
    let input = FrameInput {
        drag: DragInput { started: true, dragged: true, released: false, hit: Some(2) },
        clicked: true,
        click_hit: Some(1),
        zoom_input: true,
    };
    let outcome = view.handle_frame(input, &mut state);
    assert_eq!(
        outcome.drag,
        DragOutcome {
            started: Some(Change::Node(ChangeNode::Dragged { id: 2, old: false, new: true })),
            moved: Some(2),
            released: None,
        }
    );
    assert_eq!(
        outcome.clicks,
        vec![
            Change::Node(ChangeNode::Selected { id: 0, old: true, new: false }),
            Change::Node(ChangeNode::Selected { id: 1, old: false, new: true }),
        ]
    );
    // the drag picked a node up, so the same frame does not pan
    assert_eq!(outcome.navigation, Navigation::Adjust { zoom: true, pan: false });
    assert_eq!(state.dragged, Some(2));
    assert!(view.node(2).unwrap().dragged);
    assert!(view.node(1).unwrap().selected);
    assert!(!view.node(0).unwrap().selected);

    let mut state = view.precompute_state();
    let idle = FrameInput { drag: quiet(), clicked: false, click_hit: None, zoom_input: false };
    let outcome = view.handle_frame(idle, &mut state);
    assert_eq!(outcome.drag, DragOutcome { started: None, moved: None, released: None });
    assert!(outcome.clicks.is_empty());
    assert_eq!(outcome.navigation, Navigation::Adjust { zoom: false, pan: false });
}

#[test]
fn a_delivery_goes_on_only_while_the_sink_takes() {
    assert_eq!(after_answer(0, true), Some(1));
    assert_eq!(after_answer(7, true), Some(8));
    assert_eq!(after_answer(0, false), None);
    assert_eq!(after_answer(7, false), None);
}
