//! What the library relies on from petgraph's `GraphMap`.
use petgraph::graphmap::{DiGraphMap, GraphMap};
use std::hash::BuildHasher;
use vstd::prelude::*;

verus! {

/// petgraph's `GraphMap`, opaque to the proofs: its edges are known only
/// through `edge_weights`.
#[verifier::external_type_specification]
#[verifier::external_body]
#[verifier::reject_recursive_types(N)]
#[verifier::reject_recursive_types(E)]
#[verifier::reject_recursive_types(Ty)]
#[verifier::reject_recursive_types(S)]
pub struct ExGraphMap<N, E, Ty, S: BuildHasher>(GraphMap<N, E, Ty, S>);

/// petgraph's marker for directed edges.
#[verifier::external_type_specification]
#[verifier::external_body]
pub struct ExDirected(petgraph::Directed);

/// A directed graph over node ids whose edges carry conversion factors.
pub type FactorGraph = DiGraphMap<usize, u64>;

/// The edges of a directed graph over node ids: (tail, head) to weight.
pub uninterp spec fn edge_weights(g: DiGraphMap<usize, u64>) -> Map<(usize, usize), u64>;

/// Relies on `GraphMap::new`: a graph with no nodes and no edges.
#[verifier::external_body]
pub(crate) fn empty_graph() -> (r: FactorGraph)
    ensures
        edge_weights(r).dom() == Set::<(usize, usize)>::empty(),
{
    DiGraphMap::new()
}

/// Relies on `GraphMap::add_edge`: on a directed graph the edge (a, b) is
/// inserted with the weight, or its weight replaced when it is there.
#[verifier::external_body]
pub(crate) fn put_edge(g: &mut FactorGraph, a: usize, b: usize, weight: u64)
    ensures
        edge_weights(*final(g)) == edge_weights(*old(g)).insert((a, b), weight),
{
    g.add_edge(a, b, weight);
}

/// Relies on `GraphMap::edge_weight`: the weight of the edge (a, b), if any.
#[verifier::external_body]
pub(crate) fn weight_between(g: &FactorGraph, a: usize, b: usize) -> (r: Option<u64>)
    ensures
        r == (if edge_weights(*g).contains_key((a, b)) {
            Some(edge_weights(*g)[(a, b)])
        } else {
            None
        }),
{
    g.edge_weight(a, b).copied()
}

/// Relies on `GraphMap::edge_count`: the number of edges.
#[verifier::external_body]
pub(crate) fn number_of_edges(g: &FactorGraph) -> (r: usize)
    ensures
        r == edge_weights(*g).len(),
{
    g.edge_count()
}

/// Relies on `GraphMap::all_edges`: each edge once, with its weight.
#[verifier::external_body]
pub(crate) fn edge_list(g: &FactorGraph) -> (r: Vec<(usize, usize, u64)>)
    ensures
        r@.len() == edge_weights(*g).len(),
        forall|i: int|
            0 <= i < r@.len() ==> edge_weights(*g).contains_key((#[trigger] r@[i].0, r@[i].1))
                && edge_weights(*g)[(r@[i].0, r@[i].1)] == r@[i].2,
        forall|i: int, j: int|
            0 <= i < j < r@.len() ==> (#[trigger] r@[i].0, r@[i].1) != (#[trigger] r@[j].0, r@[j].1),
{
    g.all_edges().map(|(a, b, w)| (a, b, *w)).collect()
}

} // verus!
