//! The family graph: an undirected `petgraph` graph whose nodes carry person
//! identifiers and whose edges carry the relationship kind that declared them.
use petgraph::algo::astar;
use petgraph::graph::{EdgeIndex, NodeIndex};
use vstd::prelude::*;

use crate::person::Relationship;

verus! {

#[verifier::external_type_specification]
#[verifier::external_body]
#[verifier::reject_recursive_types(N)]
#[verifier::reject_recursive_types(E)]
#[verifier::reject_recursive_types(Ty)]
#[verifier::reject_recursive_types(Ix)]
pub struct ExGraph<N, E, Ty, Ix>(petgraph::graph::Graph<N, E, Ty, Ix>);

#[verifier::external_type_specification]
#[verifier::external_body]
pub struct ExUndirected(petgraph::Undirected);

/// Nodes hold person identifiers, edges hold relationship kinds; `u32` handles.
pub type PersonGraph = petgraph::graph::Graph<i32, Relationship, petgraph::Undirected, u32>;

/// An edge as it was added: declaring node, referenced node, kind.
pub type EdgeView = (int, int, Relationship);

/// The node weights of a graph, by node handle.
pub uninterp spec fn graph_nodes(g: PersonGraph) -> Seq<i32>;

/// The edges of a graph, by edge handle, in the orientation they were added.
pub uninterp spec fn graph_edges(g: PersonGraph) -> Seq<EdgeView>;

/// The largest number of nodes or edges that `u32` handles can address.
pub const HANDLE_LIMIT: usize = 4294967295;

/// Edge `e` joins `a` and `b`, in either direction.
pub open spec fn joins(e: EdgeView, a: int, b: int) -> bool {
    (e.0 == a && e.1 == b) || (e.0 == b && e.1 == a)
}

/// Some edge joins `a` and `b`.
pub open spec fn adjacent(edges: Seq<EdgeView>, a: int, b: int) -> bool {
    exists|k: int| 0 <= k < edges.len() && #[trigger] joins(edges[k], a, b)
}

/// Adjacency does not depend on the order of the two nodes.
pub proof fn lemma_adjacent_symmetric(edges: Seq<EdgeView>, a: int, b: int)
    requires
        adjacent(edges, a, b),
    ensures
        adjacent(edges, b, a),
{
    let k = choose|k: int| 0 <= k < edges.len() && #[trigger] joins(edges[k], a, b);
    assert(joins(edges[k], b, a));
}

/// `p` is a walk from `s` to `f` over nodes `0 .. n` and the given edges.
pub open spec fn is_walk(edges: Seq<EdgeView>, n: int, p: Seq<usize>, s: int, f: int) -> bool {
    &&& p.len() >= 1
    &&& p[0] == s
    &&& p[p.len() - 1] == f
    &&& forall|i: int| 0 <= i < p.len() ==> #[trigger] p[i] < n
    &&& forall|i: int| 0 <= i < p.len() - 1 ==> #[trigger] adjacent(edges, p[i] as int, p[i + 1] as int)
}

/// `p` is a walk from `s` to `f` with no walk shorter than it.
pub open spec fn is_shortest_walk(edges: Seq<EdgeView>, n: int, p: Seq<usize>, s: int, f: int) -> bool {
    &&& is_walk(edges, n, p, s, f)
    &&& forall|q: Seq<usize>| #[trigger] is_walk(edges, n, q, s, f) ==> p.len() <= q.len()
}

/// Relies on petgraph's `Graph::new_undirected`: a graph without nodes or edges.
#[verifier::external_body]
pub(crate) fn new_graph() -> (g: PersonGraph)
    ensures
        graph_nodes(g) == Seq::<i32>::empty(),
        graph_edges(g) == Seq::<EdgeView>::empty(),
{
    PersonGraph::new_undirected()
}

/// Relies on petgraph's `Graph::add_node`: appends a node and returns its
/// handle, the former node count. It panics when the handle would be `u32::MAX`.
#[verifier::external_body]
pub(crate) fn add_node(g: &mut PersonGraph, id: i32) -> (h: usize)
    requires
        graph_nodes(*old(g)).len() < HANDLE_LIMIT,
    ensures
        graph_nodes(*final(g)) == graph_nodes(*old(g)).push(id),
        graph_edges(*final(g)) == graph_edges(*old(g)),
        h == graph_nodes(*old(g)).len(),
{
    g.add_node(id).index()
}

/// Relies on petgraph's `Graph::add_edge`: appends an edge from `a` to `b`.
/// It panics on a handle out of bounds or when the edge handle would be `u32::MAX`.
#[verifier::external_body]
pub(crate) fn add_edge(g: &mut PersonGraph, a: usize, b: usize, rel: Relationship)
    requires
        a < graph_nodes(*old(g)).len(),
        b < graph_nodes(*old(g)).len(),
        graph_nodes(*old(g)).len() <= HANDLE_LIMIT,
        graph_edges(*old(g)).len() < HANDLE_LIMIT,
    ensures
        graph_nodes(*final(g)) == graph_nodes(*old(g)),
        graph_edges(*final(g)) == graph_edges(*old(g)).push((a as int, b as int, rel)),
{
    g.add_edge(NodeIndex::new(a), NodeIndex::new(b), rel);
}

/// Relies on petgraph's `Graph::find_edge`, which on an undirected graph
/// looks for an edge between `a` and `b` in either direction.
#[verifier::external_body]
pub(crate) fn find_edge(g: &PersonGraph, a: usize, b: usize) -> (r: Option<usize>)
    requires
        a < graph_nodes(*g).len(),
        b < graph_nodes(*g).len(),
        graph_nodes(*g).len() <= HANDLE_LIMIT,
    ensures
        match r {
            Some(e) => e < graph_edges(*g).len() && joins(graph_edges(*g)[e as int], a as int, b as int),
            None => !adjacent(graph_edges(*g), a as int, b as int),
        },
{
    g.find_edge(NodeIndex::new(a), NodeIndex::new(b)).map(|e| e.index())
}

/// Relies on petgraph's `Graph::edge_count`: the number of edges.
#[verifier::external_body]
pub(crate) fn edge_count(g: &PersonGraph) -> (r: usize)
    ensures
        r == graph_edges(*g).len(),
{
    g.edge_count()
}

/// Relies on petgraph's `Graph::edge_weight`: the kind stored on edge `e`.
#[verifier::external_body]
pub(crate) fn edge_weight(g: &PersonGraph, e: usize) -> (r: Option<Relationship>)
    requires
        e < graph_edges(*g).len(),
        graph_edges(*g).len() <= HANDLE_LIMIT,
    ensures
        r == Some(graph_edges(*g)[e as int].2),
{
    g.edge_weight(EdgeIndex::new(e)).copied()
}

/// The goal test of the search: the node reached is the finish.
fn is_finish(n: usize, finish: usize) -> (r: bool)
    ensures
        r == (n == finish),
{
    n == finish
}

/// Every edge costs one step.
fn step_cost() -> (c: u32)
    ensures
        c == 1,
{
    1
}

/// No estimate of the remaining distance: the search is uniform-cost.
fn no_estimate() -> (c: u32)
    ensures
        c == 0,
{
    0
}

/// Relies on petgraph's `algo::astar` with unit edge costs and a zero
/// estimate, which its documentation gives as a shortest path from `s` to `f`
/// (both ends included), or `None` where none exists.
#[verifier::external_body]
pub(crate) fn shortest_path(g: &PersonGraph, s: usize, f: usize) -> (r: Option<Vec<usize>>)
    requires
        s < graph_nodes(*g).len(),
        f < graph_nodes(*g).len(),
        graph_nodes(*g).len() <= HANDLE_LIMIT,
    ensures
        match r {
            Some(p) => is_shortest_walk(graph_edges(*g), graph_nodes(*g).len() as int, p@, s as int, f as int),
            None => forall|q: Seq<usize>|
                !#[trigger] is_walk(graph_edges(*g), graph_nodes(*g).len() as int, q, s as int, f as int),
        },
{
    astar(g, NodeIndex::new(s), |n| is_finish(n.index(), f), |_| step_cost(), |_| no_estimate())
        .map(|(_, p)| p.iter().map(|n| n.index()).collect())
}

} // verus!
