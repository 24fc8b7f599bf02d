//! How a selection spreads from a selected node along the edges of the
//! graph, for a bounded number of hops.

use vstd::prelude::*;
use petgraph::stable_graph::StableGraph;
use crate::elements::{Edge, Node};
use crate::graph::{edge_endpoints, edge_ids, graph_edges};
use crate::ids::{bound_before, contains_id, lemma_push_contains};

verus! {

/// The elements of an index list, as a set.
pub open spec fn members(s: Seq<u32>) -> Set<u32> {
    Set::new(|x: u32| s.contains(x))
}

/// The list is strictly ascending.
pub open spec fn ascending(s: Seq<u32>) -> bool {
    forall|i: int, j: int| 0 <= i < j < s.len() ==> s[i] < s[j]
}

/// The end at which a traversal enters edge `e`: its source when going
/// forward, its target when going backward.
pub open spec fn tail(edges: Map<u32, (u32, u32, Edge)>, e: u32, forward: bool) -> u32 {
    if forward {
        edges[e].0
    } else {
        edges[e].1
    }
}

/// The end at which a traversal leaves edge `e`.
pub open spec fn head(edges: Map<u32, (u32, u32, Edge)>, e: u32, forward: bool) -> u32 {
    if forward {
        edges[e].1
    } else {
        edges[e].0
    }
}

/// The edges that a traversal can enter from a node of `from`.
pub open spec fn leaving(edges: Map<u32, (u32, u32, Edge)>, from: Set<u32>, forward: bool) -> Set<
    u32,
> {
    Set::new(|e: u32| edges.contains_key(e) && from.contains(tail(edges, e, forward)))
}

/// `from`, and every node one hop away from it.
pub open spec fn step(edges: Map<u32, (u32, u32, Edge)>, from: Set<u32>, forward: bool) -> Set<
    u32,
> {
    Set::new(
        |n: u32|
            from.contains(n) || exists|e: u32|
                #![trigger leaving(edges, from, forward).contains(e)]
                leaving(edges, from, forward).contains(e) && head(edges, e, forward) == n,
    )
}

/// The nodes at most `hops` hops away from `root`, the root included.
pub open spec fn within(
    edges: Map<u32, (u32, u32, Edge)>,
    root: u32,
    forward: bool,
    hops: nat,
) -> Set<u32>
    decreases hops,
{
    if hops == 0 {
        set![root]
    } else {
        step(edges, within(edges, root, forward, (hops - 1) as nat), forward)
    }
}

/// The nodes that a selection of `root` reaches: those between one and
/// `hops` hops away, without the root itself.
pub open spec fn reached_nodes(
    edges: Map<u32, (u32, u32, Edge)>,
    root: u32,
    forward: bool,
    hops: nat,
) -> Set<u32> {
    within(edges, root, forward, hops).remove(root)
}

/// The edges that a selection of `root` reaches: those a traversal of at
/// most `hops` hops passes through.
pub open spec fn reached_edges(
    edges: Map<u32, (u32, u32, Edge)>,
    root: u32,
    forward: bool,
    hops: nat,
) -> Set<u32> {
    if hops == 0 {
        Set::empty()
    } else {
        leaving(edges, within(edges, root, forward, (hops - 1) as nat), forward)
    }
}

/// The number of hops that a selection depth stands for: its magnitude.
pub open spec fn hops_of(depth: i32) -> nat {
    if depth >= 0 {
        depth as nat
    } else {
        (-depth) as nat
    }
}

/// Once a hop adds no node, no later hop does.
pub proof fn lemma_within_settles(
    edges: Map<u32, (u32, u32, Edge)>,
    root: u32,
    forward: bool,
    at: nat,
    later: nat,
)
    requires
        at <= later,
        within(edges, root, forward, at + 1) == within(edges, root, forward, at),
    ensures
        within(edges, root, forward, later) == within(edges, root, forward, at),
    decreases later,
{
    if later > at {
        lemma_within_settles(edges, root, forward, at, (later - 1) as nat);
    }
}

/// How far a selection spreads depends on the endpoints of the edges only:
/// two edge maps with the same endpoints give the same neighbourhoods.
pub proof fn lemma_within_by_endpoints(
    a: Map<u32, (u32, u32, Edge)>,
    b: Map<u32, (u32, u32, Edge)>,
    root: u32,
    forward: bool,
    hops: nat,
)
    requires
        forall|k: u32| a.contains_key(k) <==> b.contains_key(k),
        forall|k: u32| a.contains_key(k) ==> a[k].0 == b[k].0 && a[k].1 == b[k].1,
    ensures
        within(a, root, forward, hops) == within(b, root, forward, hops),
        reached_nodes(a, root, forward, hops) == reached_nodes(b, root, forward, hops),
        reached_edges(a, root, forward, hops) == reached_edges(b, root, forward, hops),
    decreases hops,
{
    if hops > 0 {
        lemma_within_by_endpoints(a, b, root, forward, (hops - 1) as nat);
        let from = within(a, root, forward, (hops - 1) as nat);
        assert(leaving(a, from, forward) =~= leaving(b, from, forward));
        assert forall|n: u32| step(a, from, forward).contains(n) <==> step(
            b,
            from,
            forward,
        ).contains(n) by {
            if step(a, from, forward).contains(n) && !from.contains(n) {
                let e = choose|e: u32|
                    #![trigger leaving(a, from, forward).contains(e)]
                    leaving(a, from, forward).contains(e) && head(a, e, forward) == n;
                assert(leaving(b, from, forward).contains(e) && head(b, e, forward) == n);
            }
            if step(b, from, forward).contains(n) && !from.contains(n) {
                let e = choose|e: u32|
                    #![trigger leaving(b, from, forward).contains(e)]
                    leaving(b, from, forward).contains(e) && head(b, e, forward) == n;
                assert(leaving(a, from, forward).contains(e) && head(a, e, forward) == n);
            }
        }
        assert(step(a, from, forward) =~= step(b, from, forward));
    }
}

/// One hop from `visited`: the nodes then reached, the edges entered, and
/// whether a node was added.
fn expand(g: &StableGraph<Node, Edge>, eids: &Vec<u32>, visited: &Vec<u32>, forward: bool) -> (r: (
    Vec<u32>,
    Vec<u32>,
    bool,
))
    requires
        forall|i: int, j: int| 0 <= i < j < eids@.len() ==> eids@[i] < eids@[j],
        forall|k: u32| eids@.contains(k) <==> graph_edges(*g).contains_key(k),
        visited@.no_duplicates(),
    ensures
        members(r.0@) == step(graph_edges(*g), members(visited@), forward),
        members(r.1@) == leaving(graph_edges(*g), members(visited@), forward),
        r.0@.no_duplicates(),
        ascending(r.1@),
        !r.2 ==> r.0@ == visited@,
{
    let ghost edges = graph_edges(*g);
    let ghost from = members(visited@);
    let mut next: Vec<u32> = Vec::new();
    let mut c: usize = 0;
    while c < visited.len()
        invariant
            c <= visited.len(),
            next@ == visited@.subrange(0, c as int),
        decreases visited.len() - c,
    {
        next.push(visited[c]);
        assert(next@ == visited@.subrange(0, c + 1));
        c += 1;
    }
    assert(next@ == visited@);
    let mut entered: Vec<u32> = Vec::new();
    let mut grew = false;
    let mut i: usize = 0;
    while i < eids.len()
        invariant
            i <= eids.len(),
            edges == graph_edges(*g),
            from == members(visited@),
            forall|k: u32| eids@.contains(k) <==> edges.contains_key(k),
            forall|x: u32| visited@.contains(x) ==> next@.contains(x),
            forall|x: u32| next@.contains(x) ==> step(edges, from, forward).contains(x),
            forall|j: int|
                0 <= j < i && leaving(edges, from, forward).contains(#[trigger] eids@[j])
                    ==> next@.contains(head(edges, eids@[j], forward)) && entered@.contains(
                    eids@[j],
                ),
            forall|e: u32| entered@.contains(e) ==> leaving(edges, from, forward).contains(e),
            !grew ==> next@ == visited@,
            forall|a: int, b: int| 0 <= a < b < eids@.len() ==> eids@[a] < eids@[b],
            next@.no_duplicates(),
            ascending(entered@),
            forall|m: int| 0 <= m < entered@.len() ==> entered@[m] < bound_before(eids@, i as int),
        decreases eids.len() - i,
    {
        let e = eids[i];
        assert(eids@.contains(e));
        assert(bound_before(eids@, i as int) <= e) by {
            if i > 0 {
                assert(eids@[i - 1] < eids@[i as int]);
            }
        }
        match edge_endpoints(g, e) {
            Some((s, t)) => {
                let enter = if forward { s } else { t };
                let leave = if forward { t } else { s };
                if contains_id(visited, enter) {
                    assert(leaving(edges, from, forward).contains(e));
                    assert(step(edges, from, forward).contains(leave));
                    proof {
                        lemma_push_contains(entered@, e);
                    }
                    entered.push(e);
                    if !contains_id(&next, leave) {
                        proof {
                            lemma_push_contains(next@, leave);
                        }
                        next.push(leave);
                        grew = true;
                    }
                }
            },
            None => {},
        }
        i += 1;
    }
    proof {
        assert forall|x: u32| step(edges, from, forward).contains(x) implies next@.contains(x) by {
            if !from.contains(x) {
                let e = choose|e: u32|
                    #![trigger leaving(edges, from, forward).contains(e)]
                    leaving(edges, from, forward).contains(e) && head(edges, e, forward) == x;
                assert(eids@.contains(e));
                let j = choose|j: int| 0 <= j < eids@.len() && eids@[j] == e;
                assert(leaving(edges, from, forward).contains(eids@[j]));
            }
        }
        assert forall|e: u32| leaving(edges, from, forward).contains(e) implies entered@.contains(
            e,
        ) by {
            assert(eids@.contains(e));
            let j = choose|j: int| 0 <= j < eids@.len() && eids@[j] == e;
            assert(leaving(edges, from, forward).contains(eids@[j]));
        }
        assert(members(next@) =~= step(edges, from, forward));
        assert(members(entered@) =~= leaving(edges, from, forward));
    }
    (next, entered, grew)
}

/// The nodes and edges that a selection of `root` reaches at the given
/// depth. A positive depth follows outgoing edges, a negative one incoming
/// edges, each for as many hops as its magnitude; depth zero reaches
/// nothing. The lists hold exactly the reached indices, each once, the
/// edges by ascending index.
pub fn collect_generations(g: &StableGraph<Node, Edge>, root: u32, depth: i32) -> (r: (
    Vec<u32>,
    Vec<u32>,
))
    ensures
        members(r.0@) == reached_nodes(graph_edges(*g), root, depth > 0, hops_of(depth)),
        members(r.1@) == reached_edges(graph_edges(*g), root, depth > 0, hops_of(depth)),
        r.0@.no_duplicates(),
        ascending(r.1@),
{
    let ghost edges = graph_edges(*g);
    let forward = depth > 0;
    let hops: u32 = if depth >= 0 {
        depth as u32
    } else {
        (-(depth as i64)) as u32
    };
    assert(hops == hops_of(depth));
    let mut nodes: Vec<u32> = Vec::new();
    if hops == 0 {
        let none: Vec<u32> = Vec::new();
        assert(members(nodes@) =~= reached_nodes(edges, root, forward, 0));
        assert(members(none@) =~= reached_edges(edges, root, forward, 0));
        return (nodes, none);
    }
    let eids = edge_ids(g);
    let mut visited: Vec<u32> = Vec::new();
    visited.push(root);
    assert(visited@[0] == root);
    assert(members(visited@) =~= within(edges, root, forward, 0));
    let mut entered: Vec<u32> = Vec::new();
    let mut level: u32 = 0;
    while level < hops
        invariant
            level <= hops,
            hops > 0,
            edges == graph_edges(*g),
            forall|a: int, b: int| 0 <= a < b < eids@.len() ==> eids@[a] < eids@[b],
            forall|k: u32| eids@.contains(k) <==> edges.contains_key(k),
            visited@.no_duplicates(),
            ascending(entered@),
            members(visited@) == within(edges, root, forward, level as nat),
            level > 0 ==> members(entered@) == leaving(
                edges,
                within(edges, root, forward, (level - 1) as nat),
                forward,
            ),
        decreases hops - level,
    {
        let (next, out, grew) = expand(g, &eids, &visited, forward);
        assert(members(next@) == within(edges, root, forward, (level + 1) as nat));
        if grew {
            level += 1;
        } else {
            proof {
                lemma_within_settles(edges, root, forward, level as nat, hops as nat);
                lemma_within_settles(edges, root, forward, level as nat, (hops - 1) as nat);
            }
            level = hops;
        }
        visited = next;
        entered = out;
    }
    let mut i: usize = 0;
    while i < visited.len()
        invariant
            i <= visited.len(),
            forall|x: u32| nodes@.contains(x) ==> visited@.contains(x) && x != root,
            forall|x: u32| nodes@.contains(x) ==> visited@.subrange(0, i as int).contains(x),
            visited@.no_duplicates(),
            nodes@.no_duplicates(),
            forall|j: int|
                0 <= j < i ==> (#[trigger] visited@[j]) == root || nodes@.contains(visited@[j]),
        decreases visited.len() - i,
    {
        let x = visited[i];
        proof {
            let seen = visited@.subrange(0, i as int);
            assert(visited@.subrange(0, i + 1) =~= seen.push(x));
            lemma_push_contains(seen, x);
            if seen.contains(x) {
                let j = choose|j: int| 0 <= j < seen.len() && seen[j] == x;
                assert(visited@[j] == visited@[i as int]);
            }
            assert(!nodes@.contains(x));
        }
        if x != root {
            proof {
                lemma_push_contains(nodes@, x);
            }
            let ghost kept = nodes@;
            nodes.push(x);
            assert forall|a: int, b: int|
                0 <= a < nodes@.len() && 0 <= b < nodes@.len() && a != b implies nodes@[a]
                != nodes@[b] by {
                if a < kept.len() {
                    assert(kept.contains(nodes@[a]));
                }
                if b < kept.len() {
                    assert(kept.contains(nodes@[b]));
                }
            }
        }
        i += 1;
    }
    proof {
        assert forall|x: u32| visited@.contains(x) && x != root implies nodes@.contains(x) by {
            let j = choose|j: int| 0 <= j < visited@.len() && visited@[j] == x;
            assert(visited@[j] != root);
        }
        assert(members(nodes@) =~= reached_nodes(edges, root, forward, hops as nat));
    }
    (nodes, entered)
}

/// What one selected node reaches.
pub struct Selection {
    pub root: u32,
    pub nodes: Vec<u32>,
    pub edges: Vec<u32>,
}

impl Selection {
    /// The selection holds what `root` reaches in `edges` at `depth`: each
    /// reached node once, and the reached edges by ascending index.
    pub open spec fn spread_of(self, edges: Map<u32, (u32, u32, Edge)>, depth: i32) -> bool {
        &&& members(self.nodes@) == reached_nodes(edges, self.root, depth > 0, hops_of(depth))
        &&& members(self.edges@) == reached_edges(edges, self.root, depth > 0, hops_of(depth))
        &&& self.nodes@.no_duplicates()
        &&& ascending(self.edges@)
    }
}

/// The selections of a frame, one per selected node, in the order in which
/// they were added.
pub struct Selections {
    pub entries: Vec<Selection>,
}

impl Selections {
    /// No selection.
    pub fn new() -> (s: Selections)
        ensures
            s.entries@.len() == 0,
    {
        Selections { entries: Vec::new() }
    }

    /// Some selection reaches node `k`.
    pub open spec fn reaches_node(self, k: u32) -> bool {
        exists|i: int| 0 <= i < self.entries@.len() && (#[trigger] self.entries@[i]).nodes@.contains(k)
    }

    /// Some selection reaches edge `k`.
    pub open spec fn reaches_edge(self, k: u32) -> bool {
        exists|i: int| 0 <= i < self.entries@.len() && (#[trigger] self.entries@[i]).edges@.contains(k)
    }

    /// Adds the selection that spreads from `root` at `depth`.
    pub fn add_selection(&mut self, g: &StableGraph<Node, Edge>, root: u32, depth: i32)
        ensures
            final(self).entries@.len() == old(self).entries@.len() + 1,
            final(self).entries@.subrange(0, old(self).entries@.len() as int) == old(self).entries@,
            final(self).entries@.last().root == root,
            final(self).entries@.last().spread_of(graph_edges(*g), depth),
    {
        let (nodes, edges) = collect_generations(g, root, depth);
        self.entries.push(Selection { root, nodes, edges });
        assert(self.entries@.subrange(0, old(self).entries@.len() as int) =~= old(self).entries@);
    }

    /// The nodes and edges reached from `root`, where `root` has a selection.
    pub fn elements_by_root(&self, root: u32) -> (found: Option<(&Vec<u32>, &Vec<u32>)>)
        ensures
            match found {
                Some((nodes, edges)) => exists|i: int|
                    0 <= i < self.entries@.len() && (#[trigger] self.entries@[i]).root == root
                        && *nodes == self.entries@[i].nodes && *edges == self.entries@[i].edges
                        && forall|j: int| 0 <= j < i ==> (#[trigger] self.entries@[j]).root != root,
                None => forall|j: int|
                    0 <= j < self.entries@.len() ==> (#[trigger] self.entries@[j]).root != root,
            },
    {
        let mut i: usize = 0;
        while i < self.entries.len()
            invariant
                i <= self.entries.len(),
                forall|j: int| 0 <= j < i ==> (#[trigger] self.entries@[j]).root != root,
            decreases self.entries.len() - i,
        {
            if self.entries[i].root == root {
                return Some((&self.entries[i].nodes, &self.entries[i].edges));
            }
            i += 1;
        }
        None
    }

    /// Whether some selection reaches node `k`.
    pub fn node_reached(&self, k: u32) -> (hit: bool)
        ensures
            hit == self.reaches_node(k),
    {
        let mut i: usize = 0;
        while i < self.entries.len()
            invariant
                i <= self.entries.len(),
                forall|j: int| 0 <= j < i ==> !(#[trigger] self.entries@[j]).nodes@.contains(k),
            decreases self.entries.len() - i,
        {
            if contains_id(&self.entries[i].nodes, k) {
                return true;
            }
            i += 1;
        }
        false
    }

    /// Whether some selection reaches edge `k`.
    pub fn edge_reached(&self, k: u32) -> (hit: bool)
        ensures
            hit == self.reaches_edge(k),
    {
        let mut i: usize = 0;
        while i < self.entries.len()
            invariant
                i <= self.entries.len(),
                forall|j: int| 0 <= j < i ==> !(#[trigger] self.entries@[j]).edges@.contains(k),
            decreases self.entries.len() - i,
        {
            if contains_id(&self.entries[i].edges, k) {
                return true;
            }
            i += 1;
        }
        false
    }
}

} // verus!
