//! Directed graphs of `petgraph`, as the semantic rules use them, and what a
//! cycle is.
use petgraph::stable_graph::{NodeIndex, StableGraph};
use petgraph::Directed;
use vstd::multiset::Multiset;
use vstd::prelude::*;

verus! {

#[verifier::external_type_specification]
#[verifier::external_body]
#[verifier::reject_recursive_types(N)]
#[verifier::reject_recursive_types(E)]
#[verifier::reject_recursive_types(Ty)]
#[verifier::reject_recursive_types(Ix)]
pub struct ExStableGraph<N, E, Ty, Ix>(StableGraph<N, E, Ty, Ix>);

#[verifier::external_type_specification]
#[verifier::external_body]
pub struct ExDirected(Directed);

/// A relation holds of a cycle: some walk of one step or more along it
/// comes back to where it started.
pub open spec fn has_cycle<A>(edge: spec_fn(A, A) -> bool) -> bool {
    exists|walk: Seq<A>| #[trigger] is_closed_walk(edge, walk)
}

/// `walk` has two nodes or more, ends where it starts, and each node is
/// related to the next.
pub open spec fn is_closed_walk<A>(edge: spec_fn(A, A) -> bool, walk: Seq<A>) -> bool {
    &&& walk.len() >= 2
    &&& walk[0] == walk[walk.len() - 1]
    &&& forall|i: int| 0 <= i < walk.len() - 1 ==> #[trigger] edge(walk[i], walk[i + 1])
}

/// The edges of a graph, as (source, target) pairs of node indices, one per
/// edge (a graph may hold parallel edges).
pub uninterp spec fn graph_edges(g: StableGraph<(), (), Directed, u32>) -> Multiset<(u32, u32)>;

/// The node slots of a graph: slot `i` is `true` when index `i` holds a node,
/// `false` when its node was removed.
pub uninterp spec fn graph_nodes(g: StableGraph<(), (), Directed, u32>) -> Seq<bool>;

/// The edge relation of a graph.
pub open spec fn edge_of(g: StableGraph<(), (), Directed, u32>) -> spec_fn(u32, u32) -> bool {
    |a: u32, b: u32| graph_edges(g).contains((a, b))
}

/// Calls `StableGraph::new`. Trusted: the graph has no node slot and no edge.
#[verifier::external_body]
pub(crate) fn graph_new() -> (g: StableGraph<(), (), Directed, u32>)
    ensures
        graph_nodes(g) == Seq::<bool>::empty(),
        graph_edges(g) == Multiset::<(u32, u32)>::empty(),
{
    StableGraph::new()
}

/// Calls `StableGraph::add_node`. Trusted: on a graph with no removed node
/// (so that no vacant slot is reused), the new node takes the next slot, whose
/// index is returned, and the edges stay as they were. The call panics when
/// the next index would be `u32::MAX`, which `requires` rules out.
#[verifier::external_body]
pub(crate) fn graph_add_node(g: &mut StableGraph<(), (), Directed, u32>) -> (i: u32)
    requires
        graph_nodes(*old(g)).len() < u32::MAX,
        forall|k: int| 0 <= k < graph_nodes(*old(g)).len() ==> #[trigger] graph_nodes(*old(g))[k],
    ensures
        i == graph_nodes(*old(g)).len(),
        graph_nodes(*final(g)) == graph_nodes(*old(g)).push(true),
        graph_edges(*final(g)) == graph_edges(*old(g)),
{
    g.add_node(()).index() as u32
}

/// Calls `StableGraph::add_edge`. Trusted: one edge from `a` to `b` is added
/// and the nodes stay as they were. The call panics when `a` or `b` is not a
/// node, or when the edge list is full for `u32` indices; `requires` rules
/// both out.
#[verifier::external_body]
pub(crate) fn graph_add_edge(g: &mut StableGraph<(), (), Directed, u32>, a: u32, b: u32)
    requires
        a < graph_nodes(*old(g)).len(),
        b < graph_nodes(*old(g)).len(),
        graph_nodes(*old(g))[a as int],
        graph_nodes(*old(g))[b as int],
        graph_edges(*old(g)).len() < u32::MAX,
    ensures
        graph_nodes(*final(g)) == graph_nodes(*old(g)),
        graph_edges(*final(g)) == graph_edges(*old(g)).insert((a, b)),
{
    g.add_edge(NodeIndex::new(a as usize), NodeIndex::new(b as usize), ());
}

/// Calls `petgraph::algo::is_cyclic_directed`. Trusted: the result tells
/// whether the edges of the graph hold a cycle (a self loop is one).
#[verifier::external_body]
pub(crate) fn graph_is_cyclic(g: &StableGraph<(), (), Directed, u32>) -> (r: bool)
    ensures
        r == has_cycle(edge_of(*g)),
{
    petgraph::algo::is_cyclic_directed(g)
}

} // verus!
