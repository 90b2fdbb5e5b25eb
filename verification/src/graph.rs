//! The directed graph that holds the pinned distributions and the ranges
//! between them.

use crate::dist::ResolvedDist;
use crate::range::VersionRange;
use vstd::prelude::*;

verus! {

/// `petgraph::graph::Graph`: a graph of nodes and edges that carry weights,
/// each kept under an index. Nothing of its inside is known here.
#[verifier::external_type_specification]
#[verifier::external_body]
#[verifier::reject_recursive_types(N)]
#[verifier::reject_recursive_types(E)]
#[verifier::reject_recursive_types(Ty)]
#[verifier::reject_recursive_types(Ix)]
pub struct ExGraph<N, E, Ty, Ix>(petgraph::graph::Graph<N, E, Ty, Ix>);

/// `petgraph::Directed`: the mark of a graph whose edges have a direction.
#[verifier::external_type_specification]
#[verifier::external_body]
pub struct ExDirected(petgraph::Directed);

/// The weights of the nodes of the graph, by node index.
pub uninterp spec fn graph_nodes(
    g: petgraph::graph::Graph<ResolvedDist, VersionRange, petgraph::Directed, u32>,
) -> Seq<ResolvedDist>;

/// The edges of the graph, by edge index: source, target and weight.
pub uninterp spec fn graph_edges(
    g: petgraph::graph::Graph<ResolvedDist, VersionRange, petgraph::Directed, u32>,
) -> Seq<(int, int, VersionRange)>;

/// `petgraph::graph::Graph::with_capacity` makes a graph without nodes and
/// without edges.
#[verifier::external_body]
pub(crate) fn graph_with_capacity(nodes: usize, edges: usize) -> (g: petgraph::graph::Graph<
    ResolvedDist,
    VersionRange,
    petgraph::Directed,
    u32,
>)
    ensures
        graph_nodes(g) == Seq::<ResolvedDist>::empty(),
        graph_edges(g) == Seq::<(int, int, VersionRange)>::empty(),
{
    petgraph::graph::Graph::with_capacity(nodes, edges)
}

/// `Graph::node_count` is the number of nodes.
#[verifier::external_body]
pub(crate) fn graph_node_count(
    g: &petgraph::graph::Graph<ResolvedDist, VersionRange, petgraph::Directed, u32>,
) -> (n: usize)
    ensures
        n == graph_nodes(*g).len(),
{
    g.node_count()
}

/// `Graph::edge_count` is the number of edges.
#[verifier::external_body]
pub(crate) fn graph_edge_count(
    g: &petgraph::graph::Graph<ResolvedDist, VersionRange, petgraph::Directed, u32>,
) -> (n: usize)
    ensures
        n == graph_edges(*g).len(),
{
    g.edge_count()
}

/// `Graph::add_node` appends a node with the given weight and returns its
/// index; the edges stay. It panics once the graph holds as many nodes as its
/// index type can tell apart.
#[verifier::external_body]
pub(crate) fn graph_add_node(
    g: &mut petgraph::graph::Graph<ResolvedDist, VersionRange, petgraph::Directed, u32>,
    weight: ResolvedDist,
) -> (index: usize)
    requires
        graph_nodes(*old(g)).len() < u32::MAX,
    ensures
        graph_nodes(*final(g)) == graph_nodes(*old(g)).push(weight),
        graph_edges(*final(g)) == graph_edges(*old(g)),
        index == graph_nodes(*old(g)).len(),
{
    g.add_node(weight).index()
}


/// The place of an edge from `a` to `b`, where there is one.
pub open spec fn joins(edges: Seq<(int, int, VersionRange)>, a: int, b: int, i: int) -> bool {
    0 <= i < edges.len() && edges[i].0 == a && edges[i].1 == b
}

/// `Graph::update_edge` gives the weight to an edge from `a` to `b`: to one
/// that the graph holds already, or else to a new edge at the end. The nodes
/// stay. It panics where one of the two nodes does not exist, or once the
/// graph holds as many edges as its index type can tell apart.
#[verifier::external_body]
pub(crate) fn graph_update_edge(
    g: &mut petgraph::graph::Graph<ResolvedDist, VersionRange, petgraph::Directed, u32>,
    a: usize,
    b: usize,
    weight: VersionRange,
)
    requires
        a < graph_nodes(*old(g)).len(),
        b < graph_nodes(*old(g)).len(),
        graph_nodes(*old(g)).len() <= u32::MAX,
        graph_edges(*old(g)).len() < u32::MAX,
    ensures
        graph_nodes(*final(g)) == graph_nodes(*old(g)),
        (exists|i: int| joins(graph_edges(*old(g)), a as int, b as int, i)) ==> exists|i: int|
            joins(graph_edges(*old(g)), a as int, b as int, i) && graph_edges(*final(g))
                == graph_edges(*old(g)).update(i, (a as int, b as int, weight)),
        !(exists|i: int| joins(graph_edges(*old(g)), a as int, b as int, i)) ==> graph_edges(
            *final(g),
        ) == graph_edges(*old(g)).push((a as int, b as int, weight)),
{
    g.update_edge(
        petgraph::graph::NodeIndex::new(a),
        petgraph::graph::NodeIndex::new(b),
        weight,
    );
}

/// Indexing a graph by a node index gives the weight of that node. It panics
/// where the node does not exist.
#[verifier::external_body]
pub(crate) fn graph_node(
    g: &petgraph::graph::Graph<ResolvedDist, VersionRange, petgraph::Directed, u32>,
    i: usize,
) -> (weight: &ResolvedDist)
    requires
        i < graph_nodes(*g).len(),
        graph_nodes(*g).len() <= u32::MAX,
    ensures
        *weight == graph_nodes(*g)[i as int],
{
    &g[petgraph::graph::NodeIndex::new(i)]
}

/// The targets of those of the first `n` edges that leave `a`, by edge
/// index.
pub open spec fn targets_from(edges: Seq<(int, int, VersionRange)>, a: int, n: nat) -> Seq<int>
    decreases n,
{
    if n == 0 || n > edges.len() {
        Seq::empty()
    } else {
        let rest = targets_from(edges, a, (n - 1) as nat);
        if edges[n - 1].0 == a {
            rest.push(edges[n - 1].1)
        } else {
            rest
        }
    }
}

/// The sources of those of the first `n` edges that enter `b`, by edge
/// index.
pub open spec fn sources_into(edges: Seq<(int, int, VersionRange)>, b: int, n: nat) -> Seq<int>
    decreases n,
{
    if n == 0 || n > edges.len() {
        Seq::empty()
    } else {
        let rest = sources_into(edges, b, (n - 1) as nat);
        if edges[n - 1].1 == b {
            rest.push(edges[n - 1].0)
        } else {
            rest
        }
    }
}

/// The graph holds an edge from `a` to `b`.
pub open spec fn has_edge(edges: Seq<(int, int, VersionRange)>, a: int, b: int) -> bool {
    exists|i: int| joins(edges, a, b, i)
}

/// The targets of the edges that leave `a` are the nodes that `a` has an
/// edge to.
pub proof fn lemma_targets_from(edges: Seq<(int, int, VersionRange)>, a: int, n: nat)
    requires
        n <= edges.len(),
    ensures
        forall|b: int|
            targets_from(edges, a, n).contains(b) <==> exists|i: int| i < n && joins(edges, a, b, i),
    decreases n,
{
    if n > 0 {
        lemma_targets_from(edges, a, (n - 1) as nat);
        let rest = targets_from(edges, a, (n - 1) as nat);
        let now = targets_from(edges, a, n);
        assert forall|b: int| now.contains(b) <==> exists|i: int|
            i < n && joins(edges, a, b, i) by {
            if now.contains(b) {
                let k = choose|k: int| 0 <= k < now.len() && now[k] == b;
                if k < rest.len() {
                    assert(rest[k] == b);
                    assert(rest.contains(b));
                    let i = choose|i: int| i < n - 1 && joins(edges, a, b, i);
                    assert(i < n && joins(edges, a, b, i));
                } else {
                    assert(joins(edges, a, b, n - 1));
                }
            }
            if exists|i: int| i < n && joins(edges, a, b, i) {
                let i = choose|i: int| i < n && joins(edges, a, b, i);
                if i < n - 1 {
                    assert(rest.contains(b));
                    let k = choose|k: int| 0 <= k < rest.len() && rest[k] == b;
                    assert(now[k] == b);
                } else {
                    assert(now[now.len() - 1] == b);
                }
            }
        }
    }
}

/// The sources of the edges that enter `b` are the nodes that have an edge
/// to `b`.
pub proof fn lemma_sources_into(edges: Seq<(int, int, VersionRange)>, b: int, n: nat)
    requires
        n <= edges.len(),
    ensures
        forall|a: int|
            sources_into(edges, b, n).contains(a) <==> exists|i: int| i < n && joins(edges, a, b, i),
    decreases n,
{
    if n > 0 {
        lemma_sources_into(edges, b, (n - 1) as nat);
        let rest = sources_into(edges, b, (n - 1) as nat);
        let now = sources_into(edges, b, n);
        assert forall|a: int| now.contains(a) <==> exists|i: int|
            i < n && joins(edges, a, b, i) by {
            if now.contains(a) {
                let k = choose|k: int| 0 <= k < now.len() && now[k] == a;
                if k < rest.len() {
                    assert(rest[k] == a);
                    assert(rest.contains(a));
                    let i = choose|i: int| i < n - 1 && joins(edges, a, b, i);
                    assert(i < n && joins(edges, a, b, i));
                } else {
                    assert(joins(edges, a, b, n - 1));
                }
            }
            if exists|i: int| i < n && joins(edges, a, b, i) {
                let i = choose|i: int| i < n && joins(edges, a, b, i);
                if i < n - 1 {
                    assert(rest.contains(a));
                    let k = choose|k: int| 0 <= k < rest.len() && rest[k] == a;
                    assert(now[k] == a);
                } else {
                    assert(now[now.len() - 1] == a);
                }
            }
        }
    }
}

/// A list of node indices holds `x` exactly where a list with the same
/// members, each as often, holds it.
pub proof fn lemma_same_members(found: Seq<usize>, listed: Seq<int>, x: int)
    requires
        found.map_values(|t: usize| t as int).to_multiset() == listed.to_multiset(),
    ensures
        (exists|j: int| 0 <= j < found.len() && found[j] == x) <==> listed.contains(x),
{
    let mapped = found.map_values(|t: usize| t as int);
    mapped.to_multiset_ensures();
    listed.to_multiset_ensures();
    if exists|j: int| 0 <= j < found.len() && found[j] == x {
        let j = choose|j: int| 0 <= j < found.len() && found[j] == x;
        assert(mapped[j] == x);
        assert(mapped.contains(x));
        assert(mapped.to_multiset().count(x) > 0);
        assert(listed.to_multiset().count(x) > 0);
    }
    if listed.contains(x) {
        assert(listed.to_multiset().count(x) > 0);
        assert(mapped.to_multiset().count(x) > 0);
        assert(mapped.contains(x));
        let j = choose|j: int| 0 <= j < mapped.len() && mapped[j] == x;
        assert(found[j] == x);
    }
}

/// `Graph::neighbors` walks the targets of the edges that leave `a`, each
/// edge once. Nothing is said here of the order of the walk.
#[verifier::external_body]
pub(crate) fn graph_neighbors(
    g: &petgraph::graph::Graph<ResolvedDist, VersionRange, petgraph::Directed, u32>,
    a: usize,
) -> (targets: Vec<usize>)
    requires
        graph_nodes(*g).len() <= u32::MAX,
        a < graph_nodes(*g).len(),
    ensures
        targets@.map_values(|t: usize| t as int).to_multiset() == targets_from(
            graph_edges(*g),
            a as int,
            graph_edges(*g).len(),
        ).to_multiset(),
{
    g.neighbors(petgraph::graph::NodeIndex::new(a)).map(|n| n.index()).collect()
}

/// `Graph::edges_directed` with `Incoming` walks the edges that enter `b`,
/// each once; of each the source is taken. Nothing is said here of the order
/// of the walk.
#[verifier::external_body]
pub(crate) fn graph_incoming(
    g: &petgraph::graph::Graph<ResolvedDist, VersionRange, petgraph::Directed, u32>,
    b: usize,
) -> (sources: Vec<usize>)
    requires
        graph_nodes(*g).len() <= u32::MAX,
        b < graph_nodes(*g).len(),
    ensures
        sources@.map_values(|t: usize| t as int).to_multiset() == sources_into(
            graph_edges(*g),
            b as int,
            graph_edges(*g).len(),
        ).to_multiset(),
{
    g.edges_directed(petgraph::graph::NodeIndex::new(b), petgraph::Direction::Incoming).map(
        |e| petgraph::visit::EdgeRef::source(&e).index(),
    ).collect()
}

/// `Graph::into_nodes_edges` hands out the nodes by index; of each the
/// weight is taken.
#[verifier::external_body]
pub(crate) fn graph_into_nodes(
    g: petgraph::graph::Graph<ResolvedDist, VersionRange, petgraph::Directed, u32>,
) -> (weights: Vec<ResolvedDist>)
    ensures
        weights@ == graph_nodes(g),
{
    g.into_nodes_edges().0.into_iter().map(|node| node.weight).collect()
}

} // verus!
