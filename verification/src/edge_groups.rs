//! Parallel edges: the edges of a graph, grouped by the unordered pair of
//! nodes that they connect.

use vstd::prelude::*;
use petgraph::stable_graph::StableGraph;
use crate::elements::{Edge, Node};
use crate::graph::{edge_endpoints, edge_ids, graph_edges};
use crate::ids::{
    all_ids_in, bound_before, ids_in, lemma_ids_in_ascending, lemma_ids_in_contains,
    lemma_ids_in_next, lemma_ids_in_rest, lists_all,
};

verus! {

/// The edges that connect one pair of nodes, in either direction.
pub struct EdgeGroup {
    /// The lower node index of the pair.
    pub start: u32,
    /// The higher node index of the pair.
    pub end: u32,
    /// The edges between the two, by ascending index.
    pub edges: Vec<u32>,
}

impl EdgeGroup {
    /// The pair of nodes, lower index first.
    pub open spec fn pair(self) -> (u32, u32) {
        (self.start, self.end)
    }
}

/// The endpoints of edge `e`, lower index first.
pub open spec fn pair_of(edges: Map<u32, (u32, u32, Edge)>, e: u32) -> (u32, u32) {
    if edges[e].0 <= edges[e].1 {
        (edges[e].0, edges[e].1)
    } else {
        (edges[e].1, edges[e].0)
    }
}

/// The edges that connect the nodes of `pair`.
pub open spec fn edges_between(edges: Map<u32, (u32, u32, Edge)>, pair: (u32, u32)) -> Set<u32> {
    Set::new(|e: u32| edges.contains_key(e) && pair_of(edges, e) == pair)
}

/// The groups partition the edges by pair: each group lists all the edges
/// of its pair by ascending index and has at least one, every edge's pair
/// has a group, and the groups are ordered by their first edge.
pub open spec fn grouped(groups: Seq<EdgeGroup>, edges: Map<u32, (u32, u32, Edge)>) -> bool {
    &&& forall|i: int|
        0 <= i < groups.len() ==> (#[trigger] groups[i]).edges@ == all_ids_in(
            edges_between(edges, groups[i].pair()),
        ) && groups[i].edges@.len() > 0
    &&& forall|i: int, j: int|
        0 <= i < j < groups.len() ==> (#[trigger] groups[i]).edges@[0] < (
        #[trigger] groups[j]).edges@[0]
    &&& forall|e: u32|
        edges.contains_key(e) ==> has_group(groups, #[trigger] pair_of(edges, e))
}

/// Some group is that of `pair`.
pub open spec fn has_group(groups: Seq<EdgeGroup>, pair: (u32, u32)) -> bool {
    exists|i: int| 0 <= i < groups.len() && (#[trigger] groups[i]).pair() == pair
}

/// Whether some group is that of the pair (`start`, `end`).
fn find_group(groups: &Vec<EdgeGroup>, start: u32, end: u32) -> (found: bool)
    ensures
        found == has_group(groups@, (start, end)),
{
    let mut i: usize = 0;
    while i < groups.len()
        invariant
            i <= groups.len(),
            forall|j: int| 0 <= j < i ==> (#[trigger] groups@[j]).pair() != (start, end),
        decreases groups.len() - i,
    {
        if groups[i].start == start && groups[i].end == end {
            return true;
        }
        i += 1;
    }
    false
}

/// The edges between `start` and `end`, by ascending index.
fn list_between(g: &StableGraph<Node, Edge>, eids: &Vec<u32>, start: u32, end: u32) -> (list: Vec<
    u32,
>)
    requires
        forall|i: int, j: int| 0 <= i < j < eids@.len() ==> eids@[i] < eids@[j],
        forall|k: u32| eids@.contains(k) <==> graph_edges(*g).contains_key(k),
    ensures
        list@ == all_ids_in(edges_between(graph_edges(*g), (start, end))),
{
    let ghost set = edges_between(graph_edges(*g), (start, end));
    assert(lists_all(eids@, set));
    let mut list: Vec<u32> = Vec::new();
    let mut i: usize = 0;
    while i < eids.len()
        invariant
            i <= eids.len(),
            set == edges_between(graph_edges(*g), (start, end)),
            lists_all(eids@, set),
            list@ == ids_in(set, bound_before(eids@, i as int)),
        decreases eids.len() - i,
    {
        let e = eids[i];
        proof {
            lemma_ids_in_next(set, eids@, i as int);
        }
        match edge_endpoints(g, e) {
            Some((s, t)) => {
                let lower = if s <= t { s } else { t };
                let upper = if s <= t { t } else { s };
                if lower == start && upper == end {
                    list.push(e);
                }
            },
            None => {},
        }
        i += 1;
    }
    proof {
        lemma_ids_in_rest(set, eids@);
    }
    list
}

/// Groups the edges of the graph by the unordered pair of their endpoints.
pub fn edges_by_nodes(g: &StableGraph<Node, Edge>) -> (groups: Vec<EdgeGroup>)
    ensures
        grouped(groups@, graph_edges(*g)),
{
    let ghost edges = graph_edges(*g);
    let eids = edge_ids(g);
    let mut groups: Vec<EdgeGroup> = Vec::new();
    let mut i: usize = 0;
    while i < eids.len()
        invariant
            i <= eids.len(),
            edges == graph_edges(*g),
            forall|a: int, b: int| 0 <= a < b < eids@.len() ==> eids@[a] < eids@[b],
            forall|k: u32| eids@.contains(k) <==> edges.contains_key(k),
            forall|a: int|
                0 <= a < groups@.len() ==> (#[trigger] groups@[a]).edges@ == all_ids_in(
                    edges_between(edges, groups@[a].pair()),
                ) && groups@[a].edges@.len() > 0 && groups@[a].edges@[0] < bound_before(
                    eids@,
                    i as int,
                ),
            forall|a: int, b: int|
                0 <= a < b < groups@.len() ==> (#[trigger] groups@[a]).edges@[0] < (
                #[trigger] groups@[b]).edges@[0],
            forall|j: int| 0 <= j < i ==> has_group(groups@, pair_of(edges, #[trigger] eids@[j])),
        decreases eids.len() - i,
    {
        let e = eids[i];
        assert(eids@.contains(e));
        assert(bound_before(eids@, i as int) <= e) by {
            if i > 0 {
                assert(eids@[i - 1] < eids@[i as int]);
            }
        }
        let ghost before = groups@;
        match edge_endpoints(g, e) {
            Some((s, t)) => {
                let lower = if s <= t { s } else { t };
                let upper = if s <= t { t } else { s };
                if !find_group(&groups, lower, upper) {
                    let list = list_between(g, &eids, lower, upper);
                    proof {
                        let set = edges_between(edges, (lower, upper));
                        assert(set.contains(e));
                        lemma_ids_in_contains(set, 0x1_0000_0000, e);
                        lemma_ids_in_ascending(set, 0x1_0000_0000);
                        let at = choose|at: int| 0 <= at < list@.len() && list@[at] == e;
                        let first = list@[0];
                        assert(first <= e) by {
                            if at > 0 {
                                assert(list@[0] < list@[at]);
                            }
                        }
                        assert(list@.contains(first));
                        lemma_ids_in_contains(set, 0x1_0000_0000, first);
                        assert(eids@.contains(first));
                        let j = choose|j: int| 0 <= j < eids@.len() && eids@[j] == first;
                        if j < i {
                            assert(has_group(before, pair_of(edges, eids@[j])));
                        }
                        if j > i {
                            assert(eids@[i as int] < eids@[j]);
                        }
                        assert(first == e);
                    }
                    groups.push(EdgeGroup { start: lower, end: upper, edges: list });
                    assert(groups@[before.len() as int].pair() == (lower, upper));
                }
            },
            None => {},
        }
        proof {
            assert forall|a: int| 0 <= a < before.len() implies groups@[a] == before[a] by {}
            assert forall|j: int| 0 <= j < i + 1 implies has_group(
                groups@,
                pair_of(edges, #[trigger] eids@[j]),
            ) by {
                let pair = pair_of(edges, eids@[j]);
                if j < i {
                    assert(has_group(before, pair));
                    let a = choose|a: int| 0 <= a < before.len() && (#[trigger] before[a]).pair() == pair;
                    assert(groups@[a].pair() == pair);
                } else if !has_group(before, pair) {
                    assert(groups@[before.len() as int].pair() == pair);
                } else {
                    let a = choose|a: int| 0 <= a < before.len() && (#[trigger] before[a]).pair() == pair;
                    assert(groups@[a].pair() == pair);
                }
            }
        }
        i += 1;
    }
    proof {
        assert forall|e: u32| edges.contains_key(e) implies has_group(
            groups@,
            #[trigger] pair_of(edges, e),
        ) by {
            assert(eids@.contains(e));
            let j = choose|j: int| 0 <= j < eids@.len() && eids@[j] == e;
            assert(has_group(groups@, pair_of(edges, eids@[j])));
        }
    }
    groups
}

} // verus!
