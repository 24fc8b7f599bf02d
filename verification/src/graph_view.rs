//! The widget core: a graph with its interaction settings, the state that
//! each frame derives from it, and the handlers that turn a frame's input
//! into flag changes and change records.

use vstd::prelude::*;
use petgraph::stable_graph::StableGraph;
use std::sync::mpsc::Sender;
use crate::change::{Change, ChangeEdge, ChangeNode};
use crate::edge_groups::{edges_by_nodes, grouped};
use crate::elements::{Edge, Node};
use crate::frame_state::{
    dragged_nodes, edge_highlighted, first_of, framed_edges, framed_nodes, lemma_first_of_ids,
    lit_edge, lit_node, node_highlighted, selected_edges, selected_nodes, FrameState,
};
use crate::graph::{
    edge_ids, edge_weight, graph_edges, graph_nodes, node_ids, node_weight, put_edge, put_node,
};
use crate::ids::{
    all_ids_in, bound_before, ids_in, lemma_ids_in_next, lemma_ids_in_rest, lists_all,
};
use crate::interaction::{
    click_changes, click_edges, click_nodes, click_reads, deselect_changes, deselected_edges,
    deselected_nodes, drag_change, drag_drop, drag_nodes, drag_outcome, drag_pick, drag_target,
    navigation_of, node_click_changes, node_click_edges, node_click_nodes, node_deselections,
    selection_change, with_dragged, with_edge_selected, with_selected, DragInput, DragOutcome,
    FrameInput, FrameOutcome, Navigation,
};
use crate::selections::Selections;
use crate::settings::{SettingsInteraction, SettingsNavigation};
use crate::sink::send_all;

verus! {

/// A graph together with the settings that say how it reacts to input.
pub struct GraphView<'a> {
    pub g: StableGraph<Node, Edge>,
    pub settings_interaction: SettingsInteraction,
    pub settings_navigation: SettingsNavigation,
    /// Where the change records go, if anywhere.
    pub changes_sender: Option<&'a Sender<Change>>,
}

impl<'a> GraphView<'a> {
    /// The nodes of the graph, by index.
    pub open spec fn nodes(&self) -> Map<u32, Node> {
        graph_nodes(self.g)
    }

    /// The edges of the graph, by index: source, target and state.
    pub open spec fn edges(&self) -> Map<u32, (u32, u32, Edge)> {
        graph_edges(self.g)
    }

    /// A view of `g` with the default settings.
    pub fn new(g: StableGraph<Node, Edge>) -> (view: GraphView<'a>)
        ensures
            view.g == g,
            view.settings_interaction == (SettingsInteraction {
                node_click: false,
                node_select: false,
                node_multiselect: false,
                node_drag: false,
                selection_depth: 0,
            }),
            view.settings_navigation == (SettingsNavigation {
                fit_to_screen: true,
                zoom_and_pan: false,
            }),
            view.changes_sender is None,
    {
        GraphView {
            g,
            settings_interaction: SettingsInteraction::default(),
            settings_navigation: SettingsNavigation::default(),
            changes_sender: None,
        }
    }

    /// Rebuilds the frame state from the graph: groups the edges by the pair
    /// of nodes that they connect, clears and recomputes the highlights of
    /// every node and edge, spreads a selection from each selected node, and
    /// finds the dragged node (the lowest index that carries the flag).
    pub fn precompute_state(&mut self) -> (state: FrameState)
        ensures
            final(self).nodes() == framed_nodes(
                old(self).nodes(),
                old(self).edges(),
                old(self).settings_interaction.selection_depth,
            ),
            final(self).edges() == framed_edges(
                old(self).nodes(),
                old(self).edges(),
                old(self).settings_interaction.selection_depth,
            ),
            final(self).settings_interaction == old(self).settings_interaction,
            final(self).settings_navigation == old(self).settings_navigation,
            final(self).changes_sender == old(self).changes_sender,
            state.dragged == first_of(all_ids_in(dragged_nodes(old(self).nodes()))),
            match state.dragged {
                Some(idx) => final(self).nodes().contains_key(idx) && final(self).nodes()[idx].dragged,
                None => forall|k: u32|
                    final(self).nodes().contains_key(k) ==> !(#[trigger] final(self).nodes()[k]).dragged,
            },
            state.selections.spread_from(
                old(self).nodes(),
                old(self).edges(),
                old(self).settings_interaction.selection_depth,
            ),
            grouped(state.edges_by_nodes@, old(self).edges()),
    {
        let depth = self.settings_interaction.selection_depth;
        let ghost nodes0 = self.nodes();
        let ghost edges0 = self.edges();
        let ghost sel = selected_nodes(nodes0);
        let ghost drg = dragged_nodes(nodes0);
        let nids = node_ids(&self.g);
        let eids = edge_ids(&self.g);
        let edges_by_nodes = edges_by_nodes(&self.g);
        assert(lists_all(nids@, sel));
        assert(lists_all(nids@, drg));
        let mut selections = Selections::new();
        let mut dragged: Option<u32> = None;
        let mut i: usize = 0;
        while i < nids.len()
            invariant
                i <= nids.len(),
                *self == *old(self),
                nodes0 == graph_nodes(self.g),
                edges0 == graph_edges(self.g),
                sel == selected_nodes(nodes0),
                drg == dragged_nodes(nodes0),
                lists_all(nids@, sel),
                lists_all(nids@, drg),
                forall|k: u32| nids@.contains(k) <==> nodes0.contains_key(k),
                selections.entries@.len() == ids_in(sel, bound_before(nids@, i as int)).len(),
                forall|j: int|
                    0 <= j < selections.entries@.len() ==> (#[trigger] selections.entries@[j]).root
                        == ids_in(sel, bound_before(nids@, i as int))[j]
                        && selections.entries@[j].spread_of(edges0, depth),
                dragged == first_of(ids_in(drg, bound_before(nids@, i as int))),
            decreases nids.len() - i,
        {
            let k = nids[i];
            proof {
                lemma_ids_in_next(sel, nids@, i as int);
                lemma_ids_in_next(drg, nids@, i as int);
            }
            assert(nids@.contains(k));
            let ghost before = selections.entries@;
            match node_weight(&self.g, k) {
                Some(n) => {
                    if n.selected {
                        selections.add_selection(&self.g, k, depth);
                        assert forall|j: int| 0 <= j < before.len() implies selections.entries@[j]
                            == before[j] by {
                            assert(selections.entries@.subrange(0, before.len() as int)[j]
                                == before[j]);
                        }
                    }
                    if n.dragged && dragged.is_none() {
                        dragged = Some(k);
                    }
                },
                None => {},
            }
            proof {
                let roots = ids_in(sel, bound_before(nids@, i as int + 1));
                assert forall|j: int| 0 <= j < selections.entries@.len() implies (
                #[trigger] selections.entries@[j]).root == roots[j]
                    && selections.entries@[j].spread_of(edges0, depth) by {
                    if j < before.len() {
                        assert(selections.entries@[j] == before[j]);
                    }
                }
            }
            i += 1;
        }
        proof {
            lemma_ids_in_rest(sel, nids@);
            lemma_ids_in_rest(drg, nids@);
            assert(selections.spread_from(nodes0, edges0, depth));
        }
        let mut i: usize = 0;
        while i < nids.len()
            invariant
                i <= nids.len(),
                self.settings_interaction == old(self).settings_interaction,
                self.settings_navigation == old(self).settings_navigation,
                self.changes_sender == old(self).changes_sender,
                graph_edges(self.g) == edges0,
                forall|a: int, b: int| 0 <= a < b < nids@.len() ==> nids@[a] < nids@[b],
                forall|k: u32| nids@.contains(k) <==> nodes0.contains_key(k),
                forall|k: u32| graph_nodes(self.g).contains_key(k) <==> nodes0.contains_key(k),
                forall|j: int|
                    0 <= j < nids@.len() ==> graph_nodes(self.g)[#[trigger] nids@[j]] == if j < i {
                        lit_node(nodes0[nids@[j]], depth, selections.reaches_node(nids@[j]))
                    } else {
                        nodes0[nids@[j]]
                    },
            decreases nids.len() - i,
        {
            let k = nids[i];
            assert(nids@.contains(k));
            match node_weight(&self.g, k) {
                Some(n) => {
                    let lit = selections.node_reached(k);
                    let w = Node {
                        selected: n.selected,
                        dragged: n.dragged,
                        selected_child: depth > 0 && lit,
                        selected_parent: depth <= 0 && lit,
                    };
                    put_node(&mut self.g, k, w);
                },
                None => {},
            }
            i += 1;
        }
        proof {
            selections.lemma_reaches_highlighted(nodes0, edges0, depth);
            assert forall|k: u32| nodes0.contains_key(k) implies graph_nodes(self.g)[k]
                == framed_nodes(nodes0, edges0, depth)[k] by {
                assert(selections.reaches_node(k) <==> node_highlighted(nodes0, edges0, depth, k));
                assert(nids@.contains(k));
                let j = choose|j: int| 0 <= j < nids@.len() && nids@[j] == k;
                assert(graph_nodes(self.g)[nids@[j]] == lit_node(
                    nodes0[k],
                    depth,
                    selections.reaches_node(k),
                ));
            }
            assert(graph_nodes(self.g) =~= framed_nodes(nodes0, edges0, depth));
        }
        let mut i: usize = 0;
        while i < eids.len()
            invariant
                i <= eids.len(),
                self.settings_interaction == old(self).settings_interaction,
                self.settings_navigation == old(self).settings_navigation,
                self.changes_sender == old(self).changes_sender,
                graph_nodes(self.g) == framed_nodes(nodes0, edges0, depth),
                forall|a: int, b: int| 0 <= a < b < eids@.len() ==> eids@[a] < eids@[b],
                forall|k: u32| eids@.contains(k) <==> edges0.contains_key(k),
                forall|k: u32| graph_edges(self.g).contains_key(k) <==> edges0.contains_key(k),
                forall|j: int|
                    0 <= j < eids@.len() ==> graph_edges(self.g)[#[trigger] eids@[j]] == if j < i {
                        (
                            edges0[eids@[j]].0,
                            edges0[eids@[j]].1,
                            lit_edge(edges0[eids@[j]].2, depth, selections.reaches_edge(eids@[j])),
                        )
                    } else {
                        edges0[eids@[j]]
                    },
            decreases eids.len() - i,
        {
            let k = eids[i];
            assert(eids@.contains(k));
            match edge_weight(&self.g, k) {
                Some(e) => {
                    let lit = selections.edge_reached(k);
                    let w = Edge {
                        selected: e.selected,
                        selected_child: depth > 0 && lit,
                        selected_parent: depth <= 0 && lit,
                    };
                    put_edge(&mut self.g, k, w);
                },
                None => {},
            }
            i += 1;
        }
        proof {
            selections.lemma_reaches_highlighted(nodes0, edges0, depth);
            assert forall|k: u32| edges0.contains_key(k) implies graph_edges(self.g)[k]
                == framed_edges(nodes0, edges0, depth)[k] by {
                assert(selections.reaches_edge(k) <==> edge_highlighted(nodes0, edges0, depth, k));
                assert(eids@.contains(k));
                let j = choose|j: int| 0 <= j < eids@.len() && eids@[j] == k;
                assert(graph_edges(self.g)[eids@[j]] == (
                    edges0[k].0,
                    edges0[k].1,
                    lit_edge(edges0[k].2, depth, selections.reaches_edge(k)),
                ));
            }
            assert(graph_edges(self.g) =~= framed_edges(nodes0, edges0, depth));
            lemma_first_of_ids(dragged_nodes(nodes0));
            assert forall|k: u32| graph_nodes(self.g).contains_key(k) implies (
            #[trigger] graph_nodes(self.g)[k]).dragged == dragged_nodes(nodes0).contains(k) by {}
        }
        FrameState { dragged, selections, edges_by_nodes }
    }
}

impl<'a> GraphView<'a> {
    /// Replaces the interaction settings.
    pub fn with_interactions(self, settings_interaction: &SettingsInteraction) -> (view:
        GraphView<'a>)
        ensures
            view.g == self.g,
            view.settings_interaction == *settings_interaction,
            view.settings_navigation == self.settings_navigation,
            view.changes_sender == self.changes_sender,
    {
        GraphView {
            g: self.g,
            settings_interaction: *settings_interaction,
            settings_navigation: self.settings_navigation,
            changes_sender: self.changes_sender,
        }
    }

    /// Registers the sink that `send_changes` hands the change records to.
    pub fn with_changes(self, changes_sender: &'a Sender<Change>) -> (view: GraphView<'a>)
        ensures
            view.g == self.g,
            view.settings_interaction == self.settings_interaction,
            view.settings_navigation == self.settings_navigation,
            view.changes_sender == Some(changes_sender),
    {
        GraphView {
            g: self.g,
            settings_interaction: self.settings_interaction,
            settings_navigation: self.settings_navigation,
            changes_sender: Some(changes_sender),
        }
    }

    /// Hands the records to the registered sink in order, up to the first
    /// that the sink does not take, and returns how many it took. Without a
    /// sink the records are dropped.
    pub fn send_changes(&self, changes: &Vec<Change>) -> (sent: usize)
        ensures
            sent <= changes@.len(),
            self.changes_sender is None ==> sent == 0,
    {
        send_all(self.changes_sender, changes)
    }

    /// Replaces the navigation settings.
    pub fn with_navigations(self, settings_navigation: &SettingsNavigation) -> (view: GraphView<'a>)
        ensures
            view.g == self.g,
            view.settings_interaction == self.settings_interaction,
            view.settings_navigation == *settings_navigation,
            view.changes_sender == self.changes_sender,
    {
        GraphView {
            g: self.g,
            settings_interaction: self.settings_interaction,
            settings_navigation: *settings_navigation,
            changes_sender: self.changes_sender,
        }
    }

    /// Gives the graph back.
    pub fn into_graph(self) -> (g: StableGraph<Node, Edge>)
        ensures
            g == self.g,
    {
        self.g
    }

    /// The state of node `idx`, where the graph has such a node.
    pub fn node(&self, idx: u32) -> (n: Option<Node>)
        ensures
            n == (if self.nodes().contains_key(idx) {
                Some(self.nodes()[idx])
            } else {
                None
            }),
    {
        node_weight(&self.g, idx)
    }

    /// The state of edge `idx`, where the graph has such an edge.
    pub fn edge(&self, idx: u32) -> (e: Option<Edge>)
        ensures
            e == (if self.edges().contains_key(idx) {
                Some(self.edges()[idx].2)
            } else {
                None
            }),
    {
        edge_weight(&self.g, idx)
    }

    /// Sets the `selected` flag of node `idx` and reports the change.
    pub fn set_node_selected(&mut self, idx: u32, val: bool) -> (change: Change)
        requires
            old(self).nodes().contains_key(idx),
        ensures
            final(self).nodes() == with_selected(old(self).nodes(), idx, val),
            final(self).edges() == old(self).edges(),
            final(self).settings_interaction == old(self).settings_interaction,
            final(self).settings_navigation == old(self).settings_navigation,
            final(self).changes_sender == old(self).changes_sender,
            change == selection_change(old(self).nodes(), idx, val),
    {
        let n = node_weight(&self.g, idx).unwrap();
        let change = ChangeNode::change_selected(idx, n.selected, val);
        put_node(&mut self.g, idx, Node { selected: val, ..n });
        Change::node(change)
    }

    /// Sets the `selected` flag of edge `idx` and reports the change.
    pub fn set_edge_selected(&mut self, idx: u32, val: bool) -> (change: Change)
        requires
            old(self).edges().contains_key(idx),
        ensures
            final(self).edges() == with_edge_selected(old(self).edges(), idx, val),
            final(self).nodes() == old(self).nodes(),
            final(self).settings_interaction == old(self).settings_interaction,
            final(self).settings_navigation == old(self).settings_navigation,
            final(self).changes_sender == old(self).changes_sender,
            change == Change::Edge(
                ChangeEdge::Selected { id: idx, old: old(self).edges()[idx].2.selected, new: val },
            ),
    {
        let e = edge_weight(&self.g, idx).unwrap();
        let change = ChangeEdge::change_selected(idx, e.selected, val);
        put_edge(&mut self.g, idx, Edge { selected: val, ..e });
        Change::edge(change)
    }

    /// Sets the `dragged` flag of node `idx` and reports the change.
    pub fn set_dragged(&mut self, idx: u32, val: bool) -> (change: Change)
        requires
            old(self).nodes().contains_key(idx),
        ensures
            final(self).nodes() == with_dragged(old(self).nodes(), idx, val),
            final(self).edges() == old(self).edges(),
            final(self).settings_interaction == old(self).settings_interaction,
            final(self).settings_navigation == old(self).settings_navigation,
            final(self).changes_sender == old(self).changes_sender,
            change == drag_change(old(self).nodes(), idx, val),
    {
        let n = node_weight(&self.g, idx).unwrap();
        let change = ChangeNode::change_dragged(idx, n.dragged, val);
        put_node(&mut self.g, idx, Node { dragged: val, ..n });
        Change::node(change)
    }

    /// Deselects every selected node and edge, clearing their highlights
    /// too, and reports one change for each: the nodes by ascending index,
    /// then the edges by ascending index.
    pub fn deselect_all(&mut self) -> (changes: Vec<Change>)
        ensures
            final(self).nodes() == deselected_nodes(old(self).nodes()),
            final(self).edges() == deselected_edges(old(self).edges()),
            final(self).settings_interaction == old(self).settings_interaction,
            final(self).settings_navigation == old(self).settings_navigation,
            final(self).changes_sender == old(self).changes_sender,
            changes@ == deselect_changes(old(self).nodes(), old(self).edges()),
    {
        let ghost nodes0 = self.nodes();
        let ghost edges0 = self.edges();
        let ghost sel = selected_nodes(nodes0);
        let ghost sel_e = selected_edges(edges0);
        let ghost on_node = |k: u32| Change::node_deselected(k);
        let ghost on_edge = |k: u32| Change::edge_deselected(k);
        let nids = node_ids(&self.g);
        let eids = edge_ids(&self.g);
        assert(lists_all(nids@, sel));
        assert(lists_all(eids@, sel_e));
        let mut changes: Vec<Change> = Vec::new();
        let mut i: usize = 0;
        assert(changes@ =~= ids_in(sel, 0).map_values(on_node));
        while i < nids.len()
            invariant
                i <= nids.len(),
                self.settings_interaction == old(self).settings_interaction,
                self.settings_navigation == old(self).settings_navigation,
                self.changes_sender == old(self).changes_sender,
                graph_edges(self.g) == edges0,
                sel == selected_nodes(nodes0),
                on_node == |k: u32| Change::node_deselected(k),
                lists_all(nids@, sel),
                forall|k: u32| nids@.contains(k) <==> nodes0.contains_key(k),
                forall|k: u32| graph_nodes(self.g).contains_key(k) <==> nodes0.contains_key(k),
                forall|j: int|
                    0 <= j < nids@.len() ==> graph_nodes(self.g)[#[trigger] nids@[j]] == if j < i {
                        deselected_nodes(nodes0)[nids@[j]]
                    } else {
                        nodes0[nids@[j]]
                    },
                changes@ == ids_in(sel, bound_before(nids@, i as int)).map_values(on_node),
            decreases nids.len() - i,
        {
            let k = nids[i];
            proof {
                lemma_ids_in_next(sel, nids@, i as int);
            }
            assert(nids@.contains(k));
            let ghost listed = ids_in(sel, bound_before(nids@, i as int));
            match node_weight(&self.g, k) {
                Some(n) => {
                    if n.selected {
                        let change = ChangeNode::change_selected(k, n.selected, false);
                        put_node(
                            &mut self.g,
                            k,
                            Node {
                                selected: false,
                                dragged: n.dragged,
                                selected_child: false,
                                selected_parent: false,
                            },
                        );
                        changes.push(Change::node(change));
                        assert(changes@ =~= listed.push(k).map_values(on_node));
                    }
                },
                None => {},
            }
            i += 1;
        }
        proof {
            lemma_ids_in_rest(sel, nids@);
            assert forall|k: u32| nodes0.contains_key(k) implies graph_nodes(self.g)[k]
                == deselected_nodes(nodes0)[k] by {
                assert(nids@.contains(k));
                let j = choose|j: int| 0 <= j < nids@.len() && nids@[j] == k;
                assert(graph_nodes(self.g)[nids@[j]] == deselected_nodes(nodes0)[k]);
            }
            assert(graph_nodes(self.g) =~= deselected_nodes(nodes0));
            assert(changes@ =~= node_deselections(nodes0) + ids_in(sel_e, 0).map_values(on_edge));
        }
        let mut i: usize = 0;
        while i < eids.len()
            invariant
                i <= eids.len(),
                self.settings_interaction == old(self).settings_interaction,
                self.settings_navigation == old(self).settings_navigation,
                self.changes_sender == old(self).changes_sender,
                graph_nodes(self.g) == deselected_nodes(nodes0),
                sel_e == selected_edges(edges0),
                on_edge == |k: u32| Change::edge_deselected(k),
                lists_all(eids@, sel_e),
                forall|k: u32| eids@.contains(k) <==> edges0.contains_key(k),
                forall|k: u32| graph_edges(self.g).contains_key(k) <==> edges0.contains_key(k),
                forall|j: int|
                    0 <= j < eids@.len() ==> graph_edges(self.g)[#[trigger] eids@[j]] == if j < i {
                        deselected_edges(edges0)[eids@[j]]
                    } else {
                        edges0[eids@[j]]
                    },
                changes@ == node_deselections(nodes0) + ids_in(
                    sel_e,
                    bound_before(eids@, i as int),
                ).map_values(on_edge),
            decreases eids.len() - i,
        {
            let k = eids[i];
            proof {
                lemma_ids_in_next(sel_e, eids@, i as int);
            }
            assert(eids@.contains(k));
            let ghost listed = ids_in(sel_e, bound_before(eids@, i as int));
            match edge_weight(&self.g, k) {
                Some(e) => {
                    if e.selected {
                        let change = ChangeEdge::change_selected(k, e.selected, false);
                        put_edge(
                            &mut self.g,
                            k,
                            Edge { selected: false, selected_child: false, selected_parent: false },
                        );
                        changes.push(Change::edge(change));
                        assert(changes@ =~= node_deselections(nodes0) + listed.push(k).map_values(
                            on_edge,
                        ));
                    }
                },
                None => {},
            }
            i += 1;
        }
        proof {
            lemma_ids_in_rest(sel_e, eids@);
            assert forall|k: u32| edges0.contains_key(k) implies graph_edges(self.g)[k]
                == deselected_edges(edges0)[k] by {
                assert(eids@.contains(k));
                let j = choose|j: int| 0 <= j < eids@.len() && eids@[j] == k;
                assert(graph_edges(self.g)[eids@[j]] == deselected_edges(edges0)[k]);
            }
            assert(graph_edges(self.g) =~= deselected_edges(edges0));
        }
        changes
    }

    /// Handles a click on node `idx`: a selected node is deselected; an
    /// unselected one is selected, after everything else was deselected
    /// unless selections add up. Nothing happens where selection is off.
    pub fn handle_node_click(&mut self, idx: u32) -> (changes: Vec<Change>)
        requires
            old(self).settings_interaction.node_select ==> old(self).nodes().contains_key(idx),
        ensures
            final(self).nodes() == node_click_nodes(
                old(self).settings_interaction,
                old(self).nodes(),
                idx,
            ),
            final(self).edges() == node_click_edges(
                old(self).settings_interaction,
                old(self).nodes(),
                old(self).edges(),
                idx,
            ),
            final(self).settings_interaction == old(self).settings_interaction,
            final(self).settings_navigation == old(self).settings_navigation,
            final(self).changes_sender == old(self).changes_sender,
            changes@ == node_click_changes(
                old(self).settings_interaction,
                old(self).nodes(),
                old(self).edges(),
                idx,
            ),
    {
        if !self.settings_interaction.node_select {
            return Vec::new();
        }
        let n = node_weight(&self.g, idx).unwrap();
        if n.selected {
            let change = self.set_node_selected(idx, false);
            let mut changes: Vec<Change> = Vec::new();
            changes.push(change);
            assert(changes@ =~= seq![change]);
            return changes;
        }
        let mut changes: Vec<Change> = Vec::new();
        if !self.settings_interaction.node_multiselect {
            changes = self.deselect_all();
        }
        let change = self.set_node_selected(idx, true);
        changes.push(change);
        assert(self.settings_interaction.node_multiselect ==> changes@ =~= seq![change]);
        changes
    }

    /// Handles the click input of a frame; `hit` is the node under the
    /// pointer. A click on empty space deselects everything where selection
    /// is on; a click on a node is handled as `handle_node_click` says.
    pub fn handle_click(&mut self, clicked: bool, hit: Option<u32>) -> (changes: Vec<Change>)
        requires
            click_reads(old(self).settings_interaction, clicked, hit) ==> old(
                self,
            ).nodes().contains_key(hit->Some_0),
        ensures
            final(self).nodes() == click_nodes(
                old(self).settings_interaction,
                old(self).nodes(),
                clicked,
                hit,
            ),
            final(self).edges() == click_edges(
                old(self).settings_interaction,
                old(self).nodes(),
                old(self).edges(),
                clicked,
                hit,
            ),
            final(self).settings_interaction == old(self).settings_interaction,
            final(self).settings_navigation == old(self).settings_navigation,
            final(self).changes_sender == old(self).changes_sender,
            changes@ == click_changes(
                old(self).settings_interaction,
                old(self).nodes(),
                old(self).edges(),
                clicked,
                hit,
            ),
    {
        if !clicked {
            return Vec::new();
        }
        let clickable = self.settings_interaction.node_click || self.settings_interaction.node_select
            || self.settings_interaction.node_multiselect;
        if !clickable {
            return Vec::new();
        }
        match hit {
            None => {
                let selectable = self.settings_interaction.node_select
                    || self.settings_interaction.node_multiselect;
                if selectable {
                    self.deselect_all()
                } else {
                    Vec::new()
                }
            },
            Some(idx) => self.handle_node_click(idx),
        }
    }

    /// Handles the drag input of a frame: flags the node picked up and
    /// records it as the frame's dragged node, names the node to move while
    /// the drag goes on, and clears the flag of the node put down.
    pub fn handle_nodes_drags(&mut self, input: DragInput, state: &mut FrameState) -> (outcome:
        DragOutcome)
        requires
            drag_pick(old(self).settings_interaction, input) is Some ==> old(
                self,
            ).nodes().contains_key(drag_pick(old(self).settings_interaction, input)->Some_0),
            drag_drop(old(self).settings_interaction, input, old(state).dragged) is Some ==> old(
                self,
            ).nodes().contains_key(
                drag_drop(old(self).settings_interaction, input, old(state).dragged)->Some_0,
            ),
        ensures
            final(self).nodes() == drag_nodes(
                old(self).settings_interaction,
                old(self).nodes(),
                input,
                old(state).dragged,
            ),
            final(self).edges() == old(self).edges(),
            final(self).settings_interaction == old(self).settings_interaction,
            final(self).settings_navigation == old(self).settings_navigation,
            final(self).changes_sender == old(self).changes_sender,
            final(state).dragged == drag_target(
                old(self).settings_interaction,
                input,
                old(state).dragged,
            ),
            final(state).selections == old(state).selections,
            final(state).edges_by_nodes == old(state).edges_by_nodes,
            outcome == drag_outcome(
                old(self).settings_interaction,
                old(self).nodes(),
                input,
                old(state).dragged,
            ),
    {
        let mut outcome = DragOutcome { started: None, moved: None, released: None };
        if !self.settings_interaction.node_drag {
            return outcome;
        }
        if input.started {
            if let Some(idx) = input.hit {
                outcome.started = Some(self.set_dragged(idx, true));
                state.dragged = Some(idx);
            }
        }
        if input.dragged {
            outcome.moved = state.dragged;
        }
        if input.released {
            if let Some(idx) = state.dragged {
                outcome.released = Some(self.set_dragged(idx, false));
            }
        }
        outcome
    }

    /// Whether a zoom step that came in is applied.
    pub fn handle_zoom(&self, zoom_input: bool) -> (zoom: bool)
        ensures
            zoom == (self.settings_navigation.zoom_and_pan && zoom_input),
    {
        self.settings_navigation.zoom_and_pan && zoom_input
    }

    /// Whether a drag pans the view: it does where no node is being dragged.
    pub fn handle_pan(&self, dragged: bool, state: &FrameState) -> (pan: bool)
        ensures
            pan == (self.settings_navigation.zoom_and_pan && dragged && state.dragged is None),
    {
        self.settings_navigation.zoom_and_pan && dragged && state.dragged.is_none()
    }

    /// Decides what the navigation input of a frame asks of the viewport.
    pub fn handle_navigation(&self, zoom_input: bool, dragged: bool, state: &FrameState) -> (nav:
        Navigation)
        ensures
            nav == navigation_of(self.settings_navigation, zoom_input, dragged, state.dragged),
    {
        if self.settings_navigation.fit_to_screen {
            return Navigation::Fit;
        }
        Navigation::Adjust {
            zoom: self.handle_zoom(zoom_input),
            pan: self.handle_pan(dragged, state),
        }
    }

    /// Handles the input of one frame in its fixed order: the drag, then the
    /// click on the nodes as the drag left them, then the navigation, which
    /// sees the dragged node that the drag recorded.
    pub fn handle_frame(&mut self, input: FrameInput, state: &mut FrameState) -> (outcome:
        FrameOutcome)
        requires
            drag_pick(old(self).settings_interaction, input.drag) is Some ==> old(
                self,
            ).nodes().contains_key(drag_pick(old(self).settings_interaction, input.drag)->Some_0),
            drag_drop(old(self).settings_interaction, input.drag, old(state).dragged) is Some
                ==> old(self).nodes().contains_key(
                drag_drop(old(self).settings_interaction, input.drag, old(state).dragged)->Some_0,
            ),
            click_reads(old(self).settings_interaction, input.clicked, input.click_hit) ==> old(
                self,
            ).nodes().contains_key(input.click_hit->Some_0),
        ensures
            final(self).nodes() == click_nodes(
                old(self).settings_interaction,
                drag_nodes(
                    old(self).settings_interaction,
                    old(self).nodes(),
                    input.drag,
                    old(state).dragged,
                ),
                input.clicked,
                input.click_hit,
            ),
            final(self).edges() == click_edges(
                old(self).settings_interaction,
                drag_nodes(
                    old(self).settings_interaction,
                    old(self).nodes(),
                    input.drag,
                    old(state).dragged,
                ),
                old(self).edges(),
                input.clicked,
                input.click_hit,
            ),
            final(self).settings_interaction == old(self).settings_interaction,
            final(self).settings_navigation == old(self).settings_navigation,
            final(self).changes_sender == old(self).changes_sender,
            final(state).dragged == drag_target(
                old(self).settings_interaction,
                input.drag,
                old(state).dragged,
            ),
            final(state).selections == old(state).selections,
            final(state).edges_by_nodes == old(state).edges_by_nodes,
            outcome.drag == drag_outcome(
                old(self).settings_interaction,
                old(self).nodes(),
                input.drag,
                old(state).dragged,
            ),
            outcome.clicks@ == click_changes(
                old(self).settings_interaction,
                drag_nodes(
                    old(self).settings_interaction,
                    old(self).nodes(),
                    input.drag,
                    old(state).dragged,
                ),
                old(self).edges(),
                input.clicked,
                input.click_hit,
            ),
            outcome.navigation == navigation_of(
                old(self).settings_navigation,
                input.zoom_input,
                input.drag.dragged,
                final(state).dragged,
            ),
    {
        let drag = self.handle_nodes_drags(input.drag, state);
        let clicks = self.handle_click(input.clicked, input.click_hit);
        let navigation = self.handle_navigation(input.zoom_input, input.drag.dragged, state);
        FrameOutcome { drag, clicks, navigation }
    }
}

} // verus!
