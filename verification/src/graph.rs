//! Reachability and strongly connected components of a directed graph given
//! by its edge list, computed by `petgraph`.
use petgraph::algo::tarjan_scc;
use petgraph::graphmap::DiGraphMap;
use petgraph::visit::{Bfs, Reversed, Walker};
use vstd::prelude::*;

verus! {

/// Whether `(a, b)` is an edge of the graph.
pub open spec fn has_edge(edges: Seq<(u64, u64)>, a: u64, b: u64) -> bool {
    exists|i: int| 0 <= i < edges.len() && #[trigger] edges[i] == (a, b)
}

/// Whether `p` is a walk of at least one node along the edges.
pub open spec fn is_walk(edges: Seq<(u64, u64)>, p: Seq<u64>) -> bool {
    &&& p.len() >= 1
    &&& forall|i: int| 0 <= i < p.len() - 1 ==> has_edge(edges, #[trigger] p[i], p[i + 1])
}

/// Whether `b` can be reached from `a` by following zero or more edges.
pub open spec fn reaches(edges: Seq<(u64, u64)>, a: u64, b: u64) -> bool {
    exists|p: Seq<u64>| #[trigger] is_walk(edges, p) && p[0] == a && p.last() == b
}

/// The nodes reachable from `start`, `start` included, as a breadth-first
/// search of `petgraph` yields them.
///
/// Trusted: `petgraph::visit::Bfs` over a `DiGraphMap` built from `edges`.
/// The contract claims that the search yields `start` and exactly the nodes
/// that a walk from `start` reaches; the order of the nodes is not stated.
#[verifier::external_body]
pub(crate) fn reachable_from(edges: &Vec<(u64, u64)>, start: u64) -> (r: Vec<u64>)
    ensures
        forall|n: u64| r@.contains(n) <==> reaches(edges@, start, n),
{
    let graph: DiGraphMap<u64, ()> = edges.iter().map(|&(a, b)| (a, b, ())).collect();
    Bfs::new(&graph, start).iter(&graph).collect()
}

/// The nodes from which `target` is reachable, `target` included, as a
/// breadth-first search of the reversed `petgraph` graph yields them.
///
/// Trusted: `petgraph::visit::Bfs` over `petgraph::visit::Reversed` of a
/// `DiGraphMap` built from `edges`. The contract claims that the search yields
/// exactly the nodes with a walk to `target`; the order is not stated.
#[verifier::external_body]
pub(crate) fn reaching(edges: &Vec<(u64, u64)>, target: u64) -> (r: Vec<u64>)
    ensures
        forall|n: u64| r@.contains(n) <==> reaches(edges@, n, target),
{
    let graph: DiGraphMap<u64, ()> = edges.iter().map(|&(a, b)| (a, b, ())).collect();
    let reversed = Reversed(&graph);
    Bfs::new(reversed, target).iter(reversed).collect()
}

/// The strongly connected components of the graph.
///
/// Trusted: `petgraph::algo::tarjan_scc` over a `DiGraphMap` built from
/// `edges`. The contract claims what defines a strongly connected component:
/// no component repeats a node, any two nodes of one component reach each
/// other, and any two distinct nodes that reach each other share a component.
/// The order of the components and of the nodes within them is not stated.
#[verifier::external_body]
pub(crate) fn strongly_connected(edges: &Vec<(u64, u64)>) -> (r: Vec<Vec<u64>>)
    ensures
        forall|c: int| 0 <= c < r.len() ==> (#[trigger] r[c])@.no_duplicates(),
        forall|c: int, i: int, j: int|
            0 <= c < r.len() && 0 <= i < r[c].len() && 0 <= j < r[c].len() ==> reaches(
                edges@,
                #[trigger] r[c][i],
                #[trigger] r[c][j],
            ),
        forall|a: u64, b: u64|
            a != b && #[trigger] reaches(edges@, a, b) && #[trigger] reaches(edges@, b, a) ==> exists|
                c: int,
            |
                0 <= c < r.len() && (#[trigger] r[c])@.contains(a) && r[c]@.contains(b),
{
    let graph: DiGraphMap<u64, ()> = edges.iter().map(|&(a, b)| (a, b, ())).collect();
    tarjan_scc(&graph)
}

} // verus!
