//! What a frame derives from the graph before any input is handled.

use vstd::prelude::*;
use crate::edge_groups::{edges_between, EdgeGroup};
use crate::elements::{Edge, Node};
use crate::ids::{all_ids_in, lemma_ids_in_contains};
use crate::selections::{
    hops_of, lemma_within_by_endpoints, members, reached_edges, reached_nodes, Selections,
};

verus! {

/// The state of one frame, rebuilt from the graph every frame.
pub struct FrameState {
    /// The node being dragged, if any.
    pub dragged: Option<u32>,
    /// What each selected node reaches.
    pub selections: Selections,
    /// The edges, grouped by the pair of nodes that they connect.
    pub edges_by_nodes: Vec<EdgeGroup>,
}

/// The indices of the selected nodes.
pub open spec fn selected_nodes(nodes: Map<u32, Node>) -> Set<u32> {
    Set::new(|k: u32| nodes.contains_key(k) && nodes[k].selected)
}

/// The indices of the selected edges.
pub open spec fn selected_edges(edges: Map<u32, (u32, u32, Edge)>) -> Set<u32> {
    Set::new(|k: u32| edges.contains_key(k) && edges[k].2.selected)
}

/// The indices of the nodes that carry the `dragged` flag.
pub open spec fn dragged_nodes(nodes: Map<u32, Node>) -> Set<u32> {
    Set::new(|k: u32| nodes.contains_key(k) && nodes[k].dragged)
}

/// The first element of a list, if it has one.
pub open spec fn first_of(s: Seq<u32>) -> Option<u32> {
    if s.len() > 0 {
        Some(s[0])
    } else {
        None
    }
}

/// The first index of a set is in the set, and a set without a first index
/// is empty.
pub proof fn lemma_first_of_ids(set: Set<u32>)
    ensures
        match first_of(all_ids_in(set)) {
            Some(k) => set.contains(k),
            None => forall|k: u32| !set.contains(k),
        },
{
    let s = all_ids_in(set);
    if s.len() > 0 {
        assert(s.contains(s[0]));
        lemma_ids_in_contains(set, 0x1_0000_0000, s[0]);
    } else {
        assert forall|k: u32| !set.contains(k) by {
            lemma_ids_in_contains(set, 0x1_0000_0000, k);
        }
    }
}

/// Some selected node reaches node `k` at the given depth.
pub open spec fn node_highlighted(
    nodes: Map<u32, Node>,
    edges: Map<u32, (u32, u32, Edge)>,
    depth: i32,
    k: u32,
) -> bool {
    exists|r: u32|
        #![trigger selected_nodes(nodes).contains(r)]
        selected_nodes(nodes).contains(r) && reached_nodes(
            edges,
            r,
            depth > 0,
            hops_of(depth),
        ).contains(k)
}

/// Some selected node reaches edge `k` at the given depth.
pub open spec fn edge_highlighted(
    nodes: Map<u32, Node>,
    edges: Map<u32, (u32, u32, Edge)>,
    depth: i32,
    k: u32,
) -> bool {
    exists|r: u32|
        #![trigger selected_nodes(nodes).contains(r)]
        selected_nodes(nodes).contains(r) && reached_edges(
            edges,
            r,
            depth > 0,
            hops_of(depth),
        ).contains(k)
}

/// A node with its highlights set: as a child where the depth is positive,
/// as a parent otherwise.
pub open spec fn lit_node(n: Node, depth: i32, lit: bool) -> Node {
    Node {
        selected: n.selected,
        dragged: n.dragged,
        selected_child: depth > 0 && lit,
        selected_parent: depth <= 0 && lit,
    }
}

/// An edge with its highlights set.
pub open spec fn lit_edge(e: Edge, depth: i32, lit: bool) -> Edge {
    Edge { selected: e.selected, selected_child: depth > 0 && lit, selected_parent: depth <= 0 && lit }
}

/// The nodes as a frame leaves them: highlights recomputed from the
/// selected nodes, `selected` and `dragged` untouched.
pub open spec fn framed_nodes(
    nodes: Map<u32, Node>,
    edges: Map<u32, (u32, u32, Edge)>,
    depth: i32,
) -> Map<u32, Node> {
    Map::new(
        |k: u32| nodes.contains_key(k),
        |k: u32| lit_node(nodes[k], depth, node_highlighted(nodes, edges, depth, k)),
    )
}

/// The edges as a frame leaves them: endpoints and `selected` untouched.
pub open spec fn framed_edges(
    nodes: Map<u32, Node>,
    edges: Map<u32, (u32, u32, Edge)>,
    depth: i32,
) -> Map<u32, (u32, u32, Edge)> {
    Map::new(
        |k: u32| edges.contains_key(k),
        |k: u32|
            (
                edges[k].0,
                edges[k].1,
                lit_edge(edges[k].2, depth, edge_highlighted(nodes, edges, depth, k)),
            ),
    )
}

impl Selections {
    /// The selections are those of the selected nodes, one each, by
    /// ascending root.
    pub open spec fn spread_from(
        self,
        nodes: Map<u32, Node>,
        edges: Map<u32, (u32, u32, Edge)>,
        depth: i32,
    ) -> bool {
        let roots = all_ids_in(selected_nodes(nodes));
        &&& self.entries@.len() == roots.len()
        &&& forall|i: int|
            0 <= i < self.entries@.len() ==> (#[trigger] self.entries@[i]).root == roots[i]
                && self.entries@[i].spread_of(edges, depth)
    }

    /// Selections that spread from the selected nodes reach exactly the
    /// highlighted elements.
    pub proof fn lemma_reaches_highlighted(
        self,
        nodes: Map<u32, Node>,
        edges: Map<u32, (u32, u32, Edge)>,
        depth: i32,
    )
        requires
            self.spread_from(nodes, edges, depth),
        ensures
            forall|k: u32| self.reaches_node(k) <==> node_highlighted(nodes, edges, depth, k),
            forall|k: u32| self.reaches_edge(k) <==> edge_highlighted(nodes, edges, depth, k),
    {
        let roots = all_ids_in(selected_nodes(nodes));
        let forward = depth > 0;
        let hops = hops_of(depth);
        assert forall|k: u32| self.reaches_node(k) <==> node_highlighted(nodes, edges, depth, k) by {
            if self.reaches_node(k) {
                let i = choose|i: int|
                    0 <= i < self.entries@.len() && (#[trigger] self.entries@[i]).nodes@.contains(k);
                let r = self.entries@[i].root;
                assert(roots[i] == r);
                assert(roots.contains(r));
                lemma_ids_in_contains(selected_nodes(nodes), 0x1_0000_0000, r);
                assert(members(self.entries@[i].nodes@).contains(k));
                assert(selected_nodes(nodes).contains(r));
            }
            if node_highlighted(nodes, edges, depth, k) {
                let r = choose|r: u32|
                    #![trigger selected_nodes(nodes).contains(r)]
                    selected_nodes(nodes).contains(r) && reached_nodes(
                        edges,
                        r,
                        forward,
                        hops,
                    ).contains(k);
                lemma_ids_in_contains(selected_nodes(nodes), 0x1_0000_0000, r);
                let i = choose|i: int| 0 <= i < roots.len() && roots[i] == r;
                assert(self.entries@[i].root == r);
                assert(members(self.entries@[i].nodes@).contains(k));
            }
        }
        assert forall|k: u32| self.reaches_edge(k) <==> edge_highlighted(nodes, edges, depth, k) by {
            if self.reaches_edge(k) {
                let i = choose|i: int|
                    0 <= i < self.entries@.len() && (#[trigger] self.entries@[i]).edges@.contains(k);
                let r = self.entries@[i].root;
                assert(roots[i] == r);
                assert(roots.contains(r));
                lemma_ids_in_contains(selected_nodes(nodes), 0x1_0000_0000, r);
                assert(members(self.entries@[i].edges@).contains(k));
                assert(selected_nodes(nodes).contains(r));
            }
            if edge_highlighted(nodes, edges, depth, k) {
                let r = choose|r: u32|
                    #![trigger selected_nodes(nodes).contains(r)]
                    selected_nodes(nodes).contains(r) && reached_edges(
                        edges,
                        r,
                        forward,
                        hops,
                    ).contains(k);
                lemma_ids_in_contains(selected_nodes(nodes), 0x1_0000_0000, r);
                let i = choose|i: int| 0 <= i < roots.len() && roots[i] == r;
                assert(self.entries@[i].root == r);
                assert(members(self.entries@[i].edges@).contains(k));
            }
        }
    }
}

/// Rebuilding the frame state a second time changes nothing: the flags that
/// the first pass left are those that the second one leaves, and the second
/// pass finds the same selected roots, the same dragged nodes, for each
/// root the same reached nodes and edges, and between each pair of nodes
/// the same edges.
pub proof fn lemma_frame_settled(
    nodes: Map<u32, Node>,
    edges: Map<u32, (u32, u32, Edge)>,
    depth: i32,
    root: u32,
    pair: (u32, u32),
)
    ensures
        edges_between(framed_edges(nodes, edges, depth), pair) == edges_between(edges, pair),
        framed_nodes(framed_nodes(nodes, edges, depth), framed_edges(nodes, edges, depth), depth)
            == framed_nodes(nodes, edges, depth),
        framed_edges(framed_nodes(nodes, edges, depth), framed_edges(nodes, edges, depth), depth)
            == framed_edges(nodes, edges, depth),
        selected_nodes(framed_nodes(nodes, edges, depth)) == selected_nodes(nodes),
        dragged_nodes(framed_nodes(nodes, edges, depth)) == dragged_nodes(nodes),
        reached_nodes(framed_edges(nodes, edges, depth), root, depth > 0, hops_of(depth))
            == reached_nodes(edges, root, depth > 0, hops_of(depth)),
        reached_edges(framed_edges(nodes, edges, depth), root, depth > 0, hops_of(depth))
            == reached_edges(edges, root, depth > 0, hops_of(depth)),
{
    let nodes1 = framed_nodes(nodes, edges, depth);
    let edges1 = framed_edges(nodes, edges, depth);
    assert(edges_between(edges1, pair) =~= edges_between(edges, pair));
    assert(selected_nodes(nodes1) =~= selected_nodes(nodes));
    assert(dragged_nodes(nodes1) =~= dragged_nodes(nodes));
    lemma_within_by_endpoints(edges1, edges, root, depth > 0, hops_of(depth));
    assert forall|k: u32|
        node_highlighted(nodes1, edges1, depth, k) <==> node_highlighted(nodes, edges, depth, k) by {
        if node_highlighted(nodes1, edges1, depth, k) {
            let r = choose|r: u32|
                #![trigger selected_nodes(nodes1).contains(r)]
                selected_nodes(nodes1).contains(r) && reached_nodes(
                    edges1,
                    r,
                    depth > 0,
                    hops_of(depth),
                ).contains(k);
            lemma_within_by_endpoints(edges1, edges, r, depth > 0, hops_of(depth));
            assert(selected_nodes(nodes).contains(r));
        }
        if node_highlighted(nodes, edges, depth, k) {
            let r = choose|r: u32|
                #![trigger selected_nodes(nodes).contains(r)]
                selected_nodes(nodes).contains(r) && reached_nodes(
                    edges,
                    r,
                    depth > 0,
                    hops_of(depth),
                ).contains(k);
            lemma_within_by_endpoints(edges1, edges, r, depth > 0, hops_of(depth));
            assert(selected_nodes(nodes1).contains(r));
        }
    }
    assert forall|k: u32|
        edge_highlighted(nodes1, edges1, depth, k) <==> edge_highlighted(nodes, edges, depth, k) by {
        if edge_highlighted(nodes1, edges1, depth, k) {
            let r = choose|r: u32|
                #![trigger selected_nodes(nodes1).contains(r)]
                selected_nodes(nodes1).contains(r) && reached_edges(
                    edges1,
                    r,
                    depth > 0,
                    hops_of(depth),
                ).contains(k);
            lemma_within_by_endpoints(edges1, edges, r, depth > 0, hops_of(depth));
            assert(selected_nodes(nodes).contains(r));
        }
        if edge_highlighted(nodes, edges, depth, k) {
            let r = choose|r: u32|
                #![trigger selected_nodes(nodes).contains(r)]
                selected_nodes(nodes).contains(r) && reached_edges(
                    edges,
                    r,
                    depth > 0,
                    hops_of(depth),
                ).contains(k);
            lemma_within_by_endpoints(edges1, edges, r, depth > 0, hops_of(depth));
            assert(selected_nodes(nodes1).contains(r));
        }
    }
    assert(framed_nodes(nodes1, edges1, depth) =~= nodes1);
    assert(framed_edges(nodes1, edges1, depth) =~= edges1);
}

} // verus!
