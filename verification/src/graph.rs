//! The boundary to `petgraph`: the stable graph is kept as it is, and the
//! few methods the widget core needs are given contracts over two maps that
//! stand for what the graph holds. Nothing in this file is proved; the
//! contracts restate what the `petgraph` sources show.

use vstd::prelude::*;
use petgraph::stable_graph::{EdgeIndex, NodeIndex, StableGraph};
use petgraph::Directed;
use crate::elements::{Edge, Node};

verus! {

/// `petgraph::stable_graph::StableGraph`, opaque: what it holds is spoken of
/// through `graph_nodes` and `graph_edges` only.
#[verifier::external_type_specification]
#[verifier::external_body]
#[verifier::reject_recursive_types(N)]
#[verifier::reject_recursive_types(E)]
#[verifier::reject_recursive_types(Ty)]
#[verifier::reject_recursive_types(Ix)]
pub struct ExStableGraph<N, E, Ty, Ix>(StableGraph<N, E, Ty, Ix>);

/// `petgraph::Directed`, the marker of a graph with directed edges.
#[verifier::external_type_specification]
#[verifier::external_body]
pub struct ExDirected(Directed);

/// The occupied node slots of a graph: index to weight.
pub uninterp spec fn graph_nodes(g: StableGraph<Node, Edge>) -> Map<u32, Node>;

/// The occupied edge slots of a graph: index to (source, target, weight).
pub uninterp spec fn graph_edges(g: StableGraph<Node, Edge>) -> Map<u32, (u32, u32, Edge)>;

/// `StableGraph::node_indices`, collected. The iterator walks the node slots
/// from the first to the last and yields the index of each occupied one, so
/// the indices come out ascending and are exactly the occupied ones.
#[verifier::external_body]
pub(crate) fn node_ids(g: &StableGraph<Node, Edge>) -> (ids: Vec<u32>)
    ensures
        forall|i: int, j: int| 0 <= i < j < ids@.len() ==> ids@[i] < ids@[j],
        forall|k: u32| ids@.contains(k) <==> graph_nodes(*g).contains_key(k),
{
    g.node_indices().map(|i| i.index() as u32).collect()
}

/// `StableGraph::edge_indices`, collected: ascending, exactly the occupied
/// edge slots.
#[verifier::external_body]
pub(crate) fn edge_ids(g: &StableGraph<Node, Edge>) -> (ids: Vec<u32>)
    ensures
        forall|i: int, j: int| 0 <= i < j < ids@.len() ==> ids@[i] < ids@[j],
        forall|k: u32| ids@.contains(k) <==> graph_edges(*g).contains_key(k),
{
    g.edge_indices().map(|e| e.index() as u32).collect()
}

/// `StableGraph::node_weight`: the weight in slot `idx`, or `None` where the
/// slot is vacant or past the end.
#[verifier::external_body]
pub(crate) fn node_weight(g: &StableGraph<Node, Edge>, idx: u32) -> (w: Option<Node>)
    ensures
        w == (if graph_nodes(*g).contains_key(idx) { Some(graph_nodes(*g)[idx]) } else { None }),
{
    g.node_weight(NodeIndex::new(idx as usize)).copied()
}

/// `StableGraph::edge_weight`: the weight in edge slot `idx`, or `None`.
#[verifier::external_body]
pub(crate) fn edge_weight(g: &StableGraph<Node, Edge>, idx: u32) -> (w: Option<Edge>)
    ensures
        w == (if graph_edges(*g).contains_key(idx) { Some(graph_edges(*g)[idx].2) } else { None }),
{
    g.edge_weight(EdgeIndex::new(idx as usize)).copied()
}

/// `StableGraph::edge_endpoints`: source and target of the edge in slot
/// `idx`, or `None` where that slot holds no edge.
#[verifier::external_body]
pub(crate) fn edge_endpoints(g: &StableGraph<Node, Edge>, idx: u32) -> (ends: Option<(u32, u32)>)
    ensures
        ends == (if graph_edges(*g).contains_key(idx) {
            Some((graph_edges(*g)[idx].0, graph_edges(*g)[idx].1))
        } else {
            None
        }),
{
    g.edge_endpoints(EdgeIndex::new(idx as usize)).map(|(s, t)| (s.index() as u32, t.index() as u32))
}

/// `StableGraph::node_weight_mut`, used to overwrite the weight of an
/// occupied slot. No other slot, and no edge, is touched.
#[verifier::external_body]
pub(crate) fn put_node(g: &mut StableGraph<Node, Edge>, idx: u32, w: Node)
    requires
        graph_nodes(*old(g)).contains_key(idx),
    ensures
        graph_nodes(*final(g)) == graph_nodes(*old(g)).insert(idx, w),
        graph_edges(*final(g)) == graph_edges(*old(g)),
{
    *g.node_weight_mut(NodeIndex::new(idx as usize)).unwrap() = w;
}

/// `StableGraph::edge_weight_mut`, used to overwrite the weight of an
/// occupied edge slot. The endpoints stay, and no node is touched.
#[verifier::external_body]
pub(crate) fn put_edge(g: &mut StableGraph<Node, Edge>, idx: u32, w: Edge)
    requires
        graph_edges(*old(g)).contains_key(idx),
    ensures
        graph_edges(*final(g)) == graph_edges(*old(g)).insert(
            idx,
            (graph_edges(*old(g))[idx].0, graph_edges(*old(g))[idx].1, w),
        ),
        graph_nodes(*final(g)) == graph_nodes(*old(g)),
{
    *g.edge_weight_mut(EdgeIndex::new(idx as usize)).unwrap() = w;
}

} // verus!
