//! The directed graph of the `petgraph` crate, as far as the crawl uses it:
//! nodes that hold a page address, edges that hold nothing.

use vstd::prelude::*;

verus! {

/// `Graph` of `petgraph`, carried as it is: what a graph holds is known only
/// through `graph_nodes` and `graph_edges`.
#[verifier::external_type_specification]
#[verifier::external_body]
#[verifier::reject_recursive_types(N)]
#[verifier::reject_recursive_types(E)]
#[verifier::reject_recursive_types(Ty)]
#[verifier::reject_recursive_types(Ix)]
pub struct ExGraph<N, E, Ty, Ix>(petgraph::graph::Graph<N, E, Ty, Ix>);

/// `Directed` of `petgraph`, the marker of a graph whose edges have a
/// direction.
#[verifier::external_type_specification]
#[verifier::external_body]
pub struct ExDirected(petgraph::Directed);

/// The most nodes that a graph indexed by `u32` takes: the index `u32::MAX`
/// itself is kept free.
pub const NODE_LIMIT: usize = 4294967295;

/// The addresses that the nodes of a graph hold, by node index.
pub uninterp spec fn graph_nodes(g: petgraph::graph::Graph<String, ()>) -> Seq<Seq<char>>;

/// The edges of a graph as (source, target) pairs of node indices, in the
/// order in which they were added.
pub uninterp spec fn graph_edges(g: petgraph::graph::Graph<String, ()>) -> Seq<(int, int)>;

/// What `petgraph` writes for a directed graph in the DOT language, asked by
/// `{:?}` and with edge labels switched off. It depends on the node weights
/// and the edges, each in index order.
pub uninterp spec fn dot_text(nodes: Seq<Seq<char>>, edges: Seq<(int, int)>) -> Seq<char>;

/// The targets of the edges that leave `a`, the edge added last first.
pub open spec fn neighbors_of(edges: Seq<(int, int)>, a: int) -> Seq<int>
    decreases edges.len(),
{
    if edges.len() == 0 {
        Seq::empty()
    } else {
        let earlier = neighbors_of(edges.drop_last(), a);
        if edges.last().0 == a {
            seq![edges.last().1] + earlier
        } else {
            earlier
        }
    }
}

/// `Graph::new` of `petgraph`. Trusted: the new graph has no node and no edge.
#[verifier::external_body]
pub(crate) fn new_graph() -> (g: petgraph::graph::Graph<String, ()>)
    ensures
        graph_nodes(g) == Seq::<Seq<char>>::empty(),
        graph_edges(g) == Seq::<(int, int)>::empty(),
{
    petgraph::graph::Graph::new()
}

/// `Graph::add_node` of `petgraph`. Trusted: the node is appended with the
/// next free index, which is returned, and the edges stay. The call panics on
/// a full graph, which `requires` leaves out.
#[verifier::external_body]
pub(crate) fn add_node(g: &mut petgraph::graph::Graph<String, ()>, label: String) -> (node: usize)
    requires
        graph_nodes(*old(g)).len() < NODE_LIMIT,
    ensures
        graph_nodes(*final(g)) == graph_nodes(*old(g)).push(label@),
        graph_edges(*final(g)) == graph_edges(*old(g)),
        node == graph_nodes(*old(g)).len(),
{
    g.add_node(label).index()
}

/// `Graph::add_edge` of `petgraph`. Trusted: the edge is appended and the
/// nodes stay. The call panics when an end is no node of the graph or the
/// graph holds as many edges as its index type counts; `requires` leaves both
/// out.
#[verifier::external_body]
pub(crate) fn add_edge(g: &mut petgraph::graph::Graph<String, ()>, from: usize, to: usize)
    requires
        from < graph_nodes(*old(g)).len(),
        to < graph_nodes(*old(g)).len(),
        graph_nodes(*old(g)).len() <= NODE_LIMIT,
        graph_edges(*old(g)).len() < NODE_LIMIT,
    ensures
        graph_edges(*final(g)) == graph_edges(*old(g)).push((from as int, to as int)),
        graph_nodes(*final(g)) == graph_nodes(*old(g)),
{
    g.add_edge(petgraph::graph::NodeIndex::new(from), petgraph::graph::NodeIndex::new(to), ());
}

/// `Graph::node_weight` of `petgraph`. Trusted: for a node of the graph the
/// address that it holds comes back.
#[verifier::external_body]
pub(crate) fn node_label(g: &petgraph::graph::Graph<String, ()>, node: usize) -> (label: Option<&String>)
    requires
        node < graph_nodes(*g).len(),
        graph_nodes(*g).len() <= NODE_LIMIT,
    ensures
        label.is_some(),
        label.unwrap()@ == graph_nodes(*g)[node as int],
{
    g.node_weight(petgraph::graph::NodeIndex::new(node))
}

/// `Graph::neighbors` of `petgraph`. Trusted: for a directed graph it walks
/// the edges that leave the node, the edge added last first, and gives the
/// target of each.
#[verifier::external_body]
pub(crate) fn neighbors(g: &petgraph::graph::Graph<String, ()>, node: usize) -> (targets: Vec<usize>)
    requires
        node < graph_nodes(*g).len(),
        graph_nodes(*g).len() <= NODE_LIMIT,
    ensures
        targets@.len() == neighbors_of(graph_edges(*g), node as int).len(),
        forall|i: int|
            0 <= i < targets@.len() ==> targets@[i] as int == #[trigger] neighbors_of(
                graph_edges(*g),
                node as int,
            )[i],
{
    let mut targets = Vec::new();
    for target in g.neighbors(petgraph::graph::NodeIndex::new(node)) {
        targets.push(target.index());
    }
    targets
}

/// `Dot::with_config` of `petgraph`, written out through its `Debug` impl.
/// Trusted: the text depends on the graph's nodes and edges alone.
#[verifier::external_body]
pub(crate) fn dot(g: &petgraph::graph::Graph<String, ()>) -> (text: String)
    ensures
        text@ == dot_text(graph_nodes(*g), graph_edges(*g)),
{
    format!("{:?}", petgraph::dot::Dot::with_config(g, &[petgraph::dot::Config::EdgeNoLabel]))
}

} // verus!
