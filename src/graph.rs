use vstd::prelude::*;
use petgraph::dot::{Config, Dot};
use petgraph::graph::{Graph, NodeIndex};
use petgraph::{Directed, Direction};
use crate::report::in_count;
use crate::task::{Task, TaskModel};

verus! {

/// The task graph: petgraph's directed graph with `usize` indices.
pub type TaskGraph = Graph<Task, (), Directed, usize>;

#[verifier::external_type_specification]
#[verifier::external_body]
#[verifier::reject_recursive_types(N)]
#[verifier::reject_recursive_types(E)]
#[verifier::reject_recursive_types(Ty)]
#[verifier::reject_recursive_types(Ix)]
pub struct ExGraph<N, E, Ty, Ix>(Graph<N, E, Ty, Ix>);

#[verifier::external_type_specification]
#[verifier::external_body]
pub struct ExDirected(Directed);

/// The node weights of a task graph, by node index.
pub uninterp spec fn graph_nodes(g: TaskGraph) -> Seq<TaskModel>;

/// The edges of a task graph as (source, target) node indices, by edge index.
pub uninterp spec fn graph_edges(g: TaskGraph) -> Seq<(int, int)>;

/// Relies on `Graph::default`: a graph with no nodes and no edges.
#[verifier::external_body]
pub(crate) fn graph_new() -> (r: TaskGraph)
    ensures
        graph_nodes(r) == Seq::<TaskModel>::empty(),
        graph_edges(r) == Seq::<(int, int)>::empty(),
{
    Graph::default()
}

/// Relies on `Graph::add_node`: the weight is appended to the node list and
/// its index is the former node count (with `usize` indices there is no limit
/// to check).
#[verifier::external_body]
pub(crate) fn graph_add_node(g: &mut TaskGraph, t: Task) -> (r: usize)
    ensures
        graph_nodes(*final(g)) == graph_nodes(*old(g)).push(t@),
        graph_edges(*final(g)) == graph_edges(*old(g)),
        r == graph_nodes(*old(g)).len(),
{
    g.add_node(t).index()
}

/// Relies on `Graph::add_edge`: the edge is appended to the edge list; it
/// panics when an endpoint is not a node, which `requires` excludes.
#[verifier::external_body]
pub(crate) fn graph_add_edge(g: &mut TaskGraph, a: usize, b: usize)
    requires
        a < graph_nodes(*old(g)).len(),
        b < graph_nodes(*old(g)).len(),
    ensures
        graph_nodes(*final(g)) == graph_nodes(*old(g)),
        graph_edges(*final(g)) == graph_edges(*old(g)).push((a as int, b as int)),
{
    g.add_edge(NodeIndex::new(a), NodeIndex::new(b), ());
}

/// Relies on `Graph`'s indexing by `NodeIndex`: the weight of node `i`; it
/// panics when `i` is not a node, which `requires` excludes.
#[verifier::external_body]
pub(crate) fn graph_node(g: &TaskGraph, i: usize) -> (r: &Task)
    requires
        i < graph_nodes(*g).len(),
    ensures
        r@ == graph_nodes(*g)[i as int],
{
    &g[NodeIndex::new(i)]
}

/// Relies on `Graph::node_count`: the length of the node list.
#[verifier::external_body]
pub(crate) fn graph_node_count(g: &TaskGraph) -> (r: usize)
    ensures
        r == graph_nodes(*g).len(),
{
    g.node_count()
}

/// Relies on `Graph::neighbors_directed` with `Incoming`, counted: on a
/// directed graph it yields the source of every edge into `v`, self-loops
/// included.
#[verifier::external_body]
pub(crate) fn graph_in_degree(g: &TaskGraph, v: usize) -> (r: usize)
    requires
        v < graph_nodes(*g).len(),
    ensures
        r == in_count(graph_edges(*g), v as int),
{
    g.neighbors_directed(NodeIndex::new(v), Direction::Incoming).count()
}

/// Relies on `Graph::raw_edges`: every edge as its source and target
/// indices, by edge index.
#[verifier::external_body]
pub(crate) fn graph_edge_list(g: &TaskGraph) -> (r: Vec<(usize, usize)>)
    ensures
        r@.len() == graph_edges(*g).len(),
        forall|i: int|
            0 <= i < r@.len() ==> (r@[i].0 as int, r@[i].1 as int) == #[trigger] graph_edges(*g)[i],
{
    g.raw_edges().iter().map(|e| (e.source().index(), e.target().index())).collect()
}

/// The Graphviz description that petgraph's `Dot` writes, without edge
/// labels, of a graph with these nodes and edges.
pub uninterp spec fn dot_of(nodes: Seq<TaskModel>, edges: Seq<(int, int)>) -> Seq<char>;

/// Relies on `petgraph::dot::Dot` with `Config::EdgeNoLabel`, formatted with
/// `{:?}`: the text depends only on the node weights and the edges.
#[verifier::external_body]
pub(crate) fn graph_dot(g: &TaskGraph) -> (r: String)
    ensures
        r@ == dot_of(graph_nodes(*g), graph_edges(*g)),
{
    format!("{:?}", Dot::with_config(g, &[Config::EdgeNoLabel]))
}

} // verus!
