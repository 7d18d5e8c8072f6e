//! The dependency graph: petgraph's directed graph, with its nodes and edges
//! named so that contracts can speak of them.
use vstd::prelude::*;

verus! {

/// petgraph's graph type, held opaquely.
#[verifier::external_type_specification]
#[verifier::external_body]
#[verifier::reject_recursive_types(N)]
#[verifier::reject_recursive_types(E)]
#[verifier::reject_recursive_types(Ty)]
#[verifier::reject_recursive_types(Ix)]
pub struct ExGraph<N, E, Ty, Ix>(petgraph::graph::Graph<N, E, Ty, Ix>);

/// petgraph's marker for directed graphs.
#[verifier::external_type_specification]
#[verifier::external_body]
pub struct ExDirected(petgraph::Directed);

/// The node weights of a graph, in index order.
pub uninterp spec fn graph_nodes(g: petgraph::graph::DiGraph<String, ()>) -> Seq<Seq<char>>;

/// The edges of a graph as (source, target) index pairs, in the order they were added.
pub uninterp spec fn graph_edges(g: petgraph::graph::DiGraph<String, ()>) -> Seq<(int, int)>;

/// A walk along edges: each consecutive pair of `path` is an edge.
pub open spec fn is_walk(edges: Seq<(int, int)>, path: Seq<int>) -> bool {
    forall|k: int| 0 <= k < path.len() - 1 ==> edges.contains((#[trigger] path[k], path[k + 1]))
}

/// Some walk of at least one edge comes back to where it started.
pub open spec fn has_cycle(edges: Seq<(int, int)>) -> bool {
    exists|path: Seq<int>|
        path.len() >= 2 && path[0] == path[path.len() - 1] && #[trigger] is_walk(edges, path)
}

/// How many edges end in `node`.
pub open spec fn incoming(edges: Seq<(int, int)>, node: int) -> nat {
    edges.filter(|e: (int, int)| e.1 == node).len()
}

/// `petgraph::graph::Graph::new`: a graph without nodes or edges.
#[verifier::external_body]
pub(crate) fn new_graph() -> (g: petgraph::graph::DiGraph<String, ()>)
    ensures
        graph_nodes(g).len() == 0,
        graph_edges(g).len() == 0,
{
    petgraph::graph::DiGraph::new()
}

/// `petgraph::graph::Graph::add_node`: appends one node and returns its index,
/// which is the number of nodes before the call. It panics once the index type
/// (`u32`) is used up.
#[verifier::external_body]
pub(crate) fn add_node(g: &mut petgraph::graph::DiGraph<String, ()>, weight: String) -> (idx: usize)
    requires
        graph_nodes(*old(g)).len() < u32::MAX,
    ensures
        graph_nodes(*final(g)) == graph_nodes(*old(g)).push(weight@),
        graph_edges(*final(g)) == graph_edges(*old(g)),
        idx == graph_nodes(*old(g)).len(),
{
    g.add_node(weight).index()
}

/// `petgraph::graph::Graph::add_edge`: appends one edge between two existing
/// nodes. It panics on a missing node or once the index type (`u32`) is used up.
#[verifier::external_body]
pub(crate) fn add_edge(g: &mut petgraph::graph::DiGraph<String, ()>, from: usize, to: usize)
    requires
        from < graph_nodes(*old(g)).len(),
        to < graph_nodes(*old(g)).len(),
        graph_edges(*old(g)).len() < u32::MAX,
    ensures
        graph_nodes(*final(g)) == graph_nodes(*old(g)),
        graph_edges(*final(g)) == graph_edges(*old(g)).push((from as int, to as int)),
{
    g.add_edge(
        petgraph::graph::NodeIndex::new(from),
        petgraph::graph::NodeIndex::new(to),
        (),
    );
}

/// `petgraph::algo::is_cyclic_directed`: whether the directed graph has a cycle.
#[verifier::external_body]
pub(crate) fn is_cyclic(g: &petgraph::graph::DiGraph<String, ()>) -> (cyclic: bool)
    ensures
        cyclic == has_cycle(graph_edges(*g)),
{
    petgraph::algo::is_cyclic_directed(g)
}

/// `petgraph::graph::Graph::edges_directed` with `Incoming`, counted: the number
/// of edges that end in the node.
#[verifier::external_body]
pub(crate) fn count_incoming(g: &petgraph::graph::DiGraph<String, ()>, node: usize) -> (n: usize)
    requires
        node < graph_nodes(*g).len(),
    ensures
        n == incoming(graph_edges(*g), node as int),
{
    g.edges_directed(petgraph::graph::NodeIndex::new(node), petgraph::Direction::Incoming).count()
}

} // verus!
