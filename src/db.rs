use vstd::prelude::*;
use crate::entry::{EntryModel, TaskEntry};
use crate::graph::{
    dot_of, graph_add_edge, graph_add_node, graph_dot, graph_edges, graph_new, graph_node, graph_node_count,
    graph_nodes, TaskGraph,
};
use crate::task::{placeholder, Task, TaskModel};

verus! {

/// The graph node made for an entry.
pub open spec fn task_of(e: EntryModel) -> TaskModel {
    TaskModel { name: e.name, priority: e.priority, state: e.state }
}

/// Indices of the nodes named `name`, in creation order.
pub open spec fn name_matches(nodes: Seq<TaskModel>, name: Seq<char>) -> Seq<int>
    decreases nodes.len(),
{
    if nodes.len() == 0 {
        Seq::empty()
    } else {
        name_matches(nodes.drop_last(), name) + if nodes.last().name == name {
            seq![nodes.len() - 1]
        } else {
            Seq::empty()
        }
    }
}

/// An edge from each of `sources` to `target`, in order.
pub open spec fn edges_to(sources: Seq<int>, target: int) -> Seq<(int, int)> {
    sources.map_values(|m: int| (m, target))
}

/// Nodes and edges after linking node `id` to the parent that its entry
/// names: to every node of that name, or to a new placeholder where there is none.
pub open spec fn resolve_parent(
    nodes: Seq<TaskModel>,
    edges: Seq<(int, int)>,
    id: int,
    parent: Option<Seq<char>>,
) -> (Seq<TaskModel>, Seq<(int, int)>) {
    match parent {
        None => (nodes, edges),
        Some(pn) => {
            let ms = name_matches(nodes, pn);
            if ms.len() == 0 {
                (nodes.push(placeholder(pn)), edges.push((nodes.len() as int, id)))
            } else {
                (nodes, edges + edges_to(ms, id))
            }
        },
    }
}

/// Nodes and edges after adding one entry and, depth first, its children.
/// The entry's node gets index `nodes.len()`.
pub open spec fn build_entry(nodes: Seq<TaskModel>, edges: Seq<(int, int)>, e: EntryModel) -> (
    Seq<TaskModel>,
    Seq<(int, int)>,
)
    decreases e,
{
    let id = nodes.len() as int;
    let linked = resolve_parent(nodes.push(task_of(e)), edges, id, e.parent);
    build_children(linked.0, linked.1, id, e.children)
}

/// Nodes and edges after adding each of `kids` in order, each followed by
/// an edge from `pid` to the child's node.
pub open spec fn build_children(
    nodes: Seq<TaskModel>,
    edges: Seq<(int, int)>,
    pid: int,
    kids: Seq<EntryModel>,
) -> (Seq<TaskModel>, Seq<(int, int)>)
    decreases kids,
{
    if kids.len() == 0 {
        (nodes, edges)
    } else {
        let b = build_entry(nodes, edges, kids[0]);
        build_children(b.0, b.1.push((pid, nodes.len() as int)), pid, kids.drop_first())
    }
}

/// Nodes and edges after adding each of `es` in order.
pub open spec fn build_all(nodes: Seq<TaskModel>, edges: Seq<(int, int)>, es: Seq<EntryModel>) -> (
    Seq<TaskModel>,
    Seq<(int, int)>,
)
    decreases es.len(),
{
    if es.len() == 0 {
        (nodes, edges)
    } else {
        let b = build_entry(nodes, edges, es[0]);
        build_all(b.0, b.1, es.drop_first())
    }
}

/// Every edge joins two nodes of the graph.
pub open spec fn edges_in_range(n: int, edges: Seq<(int, int)>) -> bool {
    forall|i: int| 0 <= i < edges.len() ==> 0 <= #[trigger] edges[i].0 < n && 0 <= edges[i].1 < n
}

/// The title of an export and the graph of its tasks.
pub struct TaskDb {
    pub title: String,
    pub task_graph: TaskGraph,
}

impl TaskDb {
    pub open spec fn nodes(&self) -> Seq<TaskModel> {
        graph_nodes(self.task_graph)
    }

    pub open spec fn edges(&self) -> Seq<(int, int)> {
        graph_edges(self.task_graph)
    }

    pub open spec fn wf(&self) -> bool {
        edges_in_range(self.nodes().len() as int, self.edges())
    }

    /// An empty graph under the given title.
    pub fn new(title: &str) -> (r: Self)
        ensures
            r.wf(),
            r.title@ == title@,
            r.nodes() == Seq::<TaskModel>::empty(),
            r.edges() == Seq::<(int, int)>::empty(),
    {
        TaskDb { title: title.to_owned(), task_graph: graph_new() }
    }

    /// The graph as a Graphviz description: every node labelled with its
    /// task, edges without labels.
    pub fn dot_text(&self) -> (r: String)
        ensures
            r@ == dot_of(self.nodes(), self.edges()),
    {
        graph_dot(&self.task_graph)
    }

    /// Adds a node; it gets the next free index. Nodes are never merged.
    fn add_node(&mut self, task: Task) -> (r: usize)
        requires
            old(self).wf(),
        ensures
            final(self).wf(),
            final(self).title == old(self).title,
            final(self).nodes() == old(self).nodes().push(task@),
            final(self).edges() == old(self).edges(),
            r == old(self).nodes().len(),
    {
        let r = graph_add_node(&mut self.task_graph, task);
        assert(forall|i: int|
            0 <= i < self.edges().len() ==> #[trigger] self.edges()[i] == old(self).edges()[i]);
        r
    }

    fn add_edge(&mut self, a: usize, b: usize)
        requires
            old(self).wf(),
            a < old(self).nodes().len(),
            b < old(self).nodes().len(),
        ensures
            final(self).wf(),
            final(self).title == old(self).title,
            final(self).nodes() == old(self).nodes(),
            final(self).edges() == old(self).edges().push((a as int, b as int)),
    {
        graph_add_edge(&mut self.task_graph, a, b);
        assert forall|i: int| 0 <= i < self.edges().len() implies 0 <= #[trigger] self.edges()[i].0
            < self.nodes().len() && 0 <= self.edges()[i].1 < self.nodes().len() by {
            if i < old(self).edges().len() {
                assert(self.edges()[i] == old(self).edges()[i]);
            }
        }
    }

    /// Links node `id` to the parent named by its entry (see `resolve_parent`).
    fn link_parent(&mut self, id: usize, parent: Option<String>)
        requires
            old(self).wf(),
            id < old(self).nodes().len(),
        ensures
            final(self).wf(),
            final(self).title == old(self).title,
            (final(self).nodes(), final(self).edges()) == resolve_parent(
                old(self).nodes(),
                old(self).edges(),
                id as int,
                crate::entry::opt_str_view(parent),
            ),
    {
        match parent {
            None => {},
            Some(pn) => {
                let n = graph_node_count(&self.task_graph);
                let ghost nodes = self.nodes();
                let ghost e0 = self.edges();
                let mut found = false;
                let mut i: usize = 0;
                while i < n
                    invariant
                        self.wf(),
                        self.title == old(self).title,
                        n == nodes.len(),
                        id < n,
                        0 <= i <= n,
                        self.nodes() == nodes,
                        nodes == old(self).nodes(),
                        e0 == old(self).edges(),
                        self.edges() == e0 + edges_to(
                            name_matches(nodes.subrange(0, i as int), pn@),
                            id as int,
                        ),
                        found == (name_matches(nodes.subrange(0, i as int), pn@).len() > 0),
                    decreases n - i,
                {
                    let ghost before = self.edges();
                    let ghost prev = name_matches(nodes.subrange(0, i as int), pn@);
                    assert(nodes.subrange(0, i + 1).drop_last() =~= nodes.subrange(0, i as int));
                    if graph_node(&self.task_graph, i).name == pn {
                        self.add_edge(i, id);
                        found = true;
                        assert(edges_to(prev + seq![i as int], id as int) =~= edges_to(
                            prev,
                            id as int,
                        ).push((i as int, id as int)));
                    } else {
                        assert(prev + Seq::<int>::empty() =~= prev);
                    }
                    i += 1;
                }
                assert(nodes.subrange(0, n as int) =~= nodes);
                if !found {
                    assert(edges_to(Seq::<int>::empty(), id as int) =~= Seq::<(int, int)>::empty());
                    assert(self.edges() =~= e0);
                    let p = self.add_node(Task { name: pn, priority: None, state: None });
                    self.add_edge(p, id);
                }
            },
        }
    }
}

impl TaskDb {
    /// Adds one parsed entry and, depth first, its children (see `build_entry`).
    pub fn add_ticktick_summary_task_entry(&mut self, task_entry: TaskEntry)
        requires
            old(self).wf(),
        ensures
            final(self).wf(),
            final(self).title == old(self).title,
            (final(self).nodes(), final(self).edges()) == build_entry(
                old(self).nodes(),
                old(self).edges(),
                task_entry@,
            ),
    {
        let _ = self.add_task_entry_impl(task_entry);
    }

    fn add_task_entry_impl(&mut self, task_entry: TaskEntry) -> (r: usize)
        requires
            old(self).wf(),
        ensures
            final(self).wf(),
            final(self).title == old(self).title,
            (final(self).nodes(), final(self).edges()) == build_entry(
                old(self).nodes(),
                old(self).edges(),
                task_entry@,
            ),
            r == old(self).nodes().len(),
            final(self).nodes().len() > old(self).nodes().len(),
        decreases task_entry,
    {
        let ghost e = task_entry@;
        let TaskEntry { name, priority, state, parent, children } = task_entry;
        let node_id = self.add_node(Task { name, priority, state });
        assert(Task { name, priority, state }@ == task_of(e));
        self.link_parent(node_id, parent);
        let mut kids = children;
        let ghost all_kids = kids@;
        proof {
            crate::entry::lemma_entries_view(all_kids);
            assert(e.children == crate::entry::entries_view(all_kids));
        }
        let total = kids.len();
        assert(e.children.subrange(0, e.children.len() as int) =~= e.children);
        let mut k: usize = 0;
        while kids.len() > 0
            invariant
                total == all_kids.len(),
                self.nodes().len() > old(self).nodes().len(),
                self.wf(),
                self.title == old(self).title,
                node_id < self.nodes().len(),
                0 <= k <= all_kids.len(),
                kids@ == all_kids.subrange(k as int, all_kids.len() as int),
                e.children.len() == all_kids.len(),
                forall|i: int| 0 <= i < all_kids.len() ==> #[trigger] e.children[i] == all_kids[i]@,
                forall|i: int| 0 <= i < all_kids.len() ==> decreases_to!(task_entry => #[trigger] all_kids[i]),
                build_entry(old(self).nodes(), old(self).edges(), e) == build_children(
                    self.nodes(),
                    self.edges(),
                    node_id as int,
                    e.children.subrange(k as int, e.children.len() as int),
                ),
            decreases kids@.len(),
        {
            let child = kids.remove(0);
            let ghost rest = e.children.subrange(k as int, e.children.len() as int);
            assert(rest[0] == child@);
            assert(rest.drop_first() =~= e.children.subrange(k + 1, e.children.len() as int));
            let child_id = self.add_task_entry_impl(child);
            self.add_edge(node_id, child_id);
            k += 1;
            assert(kids@ =~= all_kids.subrange(k as int, all_kids.len() as int));
        }
        assert(e.children.subrange(k as int, e.children.len() as int) =~= Seq::<EntryModel>::empty());
        node_id
    }
}

} // verus!
