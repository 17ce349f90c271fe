//! The dependency graph: an edge from `d` to `s` says that step `s` needs
//! step `d` to pass first. The graph itself is a petgraph `GraphMap`.
use petgraph::graphmap::GraphMap;
use petgraph::{Directed, Direction};
use std::hash::BuildHasher;
use vstd::prelude::*;

verus! {

#[verifier::external_type_specification]
#[verifier::external_body]
#[verifier::reject_recursive_types(N)]
#[verifier::reject_recursive_types(E)]
#[verifier::reject_recursive_types(Ty)]
#[verifier::reject_recursive_types(S)]
pub struct ExGraphMap<N, E, Ty, S>(GraphMap<N, E, Ty, S>) where S: BuildHasher;

#[verifier::external_type_specification]
#[verifier::external_body]
pub struct ExDirected(Directed);

/// A directed graph over step indices.
pub type DepGraph = GraphMap<usize, (), Directed>;

/// The edges that a graph holds, as (from, to) pairs.
pub uninterp spec fn graph_edges(g: GraphMap<usize, (), Directed>) -> Set<(usize, usize)>;

/// The edges that dependency lists describe: one from each listed
/// dependency to the step that lists it.
pub open spec fn dependency_edges(deps: Seq<Seq<usize>>) -> Set<(usize, usize)> {
    Set::new(|e: (usize, usize)| e.1 < deps.len() && deps[e.1 as int].contains(e.0))
}

/// Relies on petgraph's `GraphMap::new`: a new graph has no edges.
#[verifier::external_body]
fn new_graph() -> (r: DepGraph)
    ensures
        graph_edges(r) == Set::<(usize, usize)>::empty(),
{
    GraphMap::new()
}

/// Relies on petgraph's `GraphMap::add_edge`: the edge from `a` to `b` is
/// added (an existing one only gets its weight replaced).
#[verifier::external_body]
fn add_edge(g: &mut DepGraph, a: usize, b: usize)
    ensures
        graph_edges(*final(g)) == graph_edges(*old(g)).insert((a, b)),
{
    g.add_edge(a, b, ());
}

/// Relies on petgraph's `GraphMap::neighbors_directed` on a directed graph:
/// with `incoming` the sources of the edges into `a`, otherwise the targets
/// of the edges out of `a`, each once (each edge is kept once in the
/// adjacency list of either end, a self loop once).
#[verifier::external_body]
fn neighbors(g: &DepGraph, a: usize, incoming: bool) -> (r: Vec<usize>)
    ensures
        r@.no_duplicates(),
        forall|m: usize|
            r@.contains(m) <==> (if incoming {
                graph_edges(*g).contains((m, a))
            } else {
                graph_edges(*g).contains((a, m))
            }),
{
    let dir = if incoming { Direction::Incoming } else { Direction::Outgoing };
    g.neighbors_directed(a, dir).collect()
}

/// The steps that step `a` depends on.
pub fn dependencies(g: &DepGraph, a: usize) -> (r: Vec<usize>)
    ensures
        r@.no_duplicates(),
        forall|m: usize| r@.contains(m) <==> graph_edges(*g).contains((m, a)),
{
    neighbors(g, a, true)
}

/// The steps that depend on step `a`.
pub fn dependents(g: &DepGraph, a: usize) -> (r: Vec<usize>)
    ensures
        r@.no_duplicates(),
        forall|m: usize| r@.contains(m) <==> graph_edges(*g).contains((a, m)),
{
    neighbors(g, a, false)
}

/// Builds the graph of resolved dependency lists: `deps[s]` lists the
/// indices of the steps that step `s` depends on.
pub fn dependency_graph(deps: &Vec<Vec<usize>>) -> (g: DepGraph)
    ensures
        graph_edges(g) == dependency_edges(deps@.map_values(|v: Vec<usize>| v@)),
{
    let ghost dv = deps@.map_values(|v: Vec<usize>| v@);
    let mut g = new_graph();
    let mut s: usize = 0;
    while s < deps.len()
        invariant
            s <= deps.len(),
            dv == deps@.map_values(|v: Vec<usize>| v@),
            graph_edges(g) == Set::new(
                |e: (usize, usize)| e.1 < s && dv[e.1 as int].contains(e.0),
            ),
        decreases deps.len() - s,
    {
        let list = &deps[s];
        let mut j: usize = 0;
        while j < list.len()
            invariant
                s < deps.len(),
                j <= list.len(),
                list@ == dv[s as int],
                dv == deps@.map_values(|v: Vec<usize>| v@),
                graph_edges(g) == Set::new(
                    |e: (usize, usize)|
                        e.1 < s && dv[e.1 as int].contains(e.0) || e.1 == s
                            && list@.subrange(0, j as int).contains(e.0),
                ),
            decreases list.len() - j,
        {
            add_edge(&mut g, list[j], s);
            proof {
                let pre = list@.subrange(0, j as int);
                assert(list@.subrange(0, j + 1) == pre.push(list@[j as int]));
                assert forall|x: usize| #[trigger]
                    list@.subrange(0, j + 1).contains(x) <==> (pre.contains(x) || x
                        == list@[j as int]) by {
                    if x == list@[j as int] {
                        assert(pre.push(list@[j as int])[j as int] == x);
                    }
                    if pre.contains(x) {
                        let k = choose|k: int| 0 <= k < pre.len() && pre[k] == x;
                        assert(pre.push(list@[j as int])[k] == x);
                    }
                }
            }
            j = j + 1;
            assert(graph_edges(g) =~= Set::new(
                |e: (usize, usize)|
                    e.1 < s && dv[e.1 as int].contains(e.0) || e.1 == s
                        && list@.subrange(0, j as int).contains(e.0),
            ));
        }
        assert(list@.subrange(0, j as int) == list@);
        s = s + 1;
        assert(graph_edges(g) =~= Set::new(
            |e: (usize, usize)| e.1 < s && dv[e.1 as int].contains(e.0),
        ));
    }
    assert(graph_edges(g) =~= dependency_edges(dv));
    g
}

} // verus!
