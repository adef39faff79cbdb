use vstd::prelude::*;
use crate::chars::{chars_of, string_of};
use crate::db::{edges_in_range, TaskDb};
use crate::graph::{graph_edge_list, graph_in_degree, graph_node, graph_node_count};
use crate::task::{priority_name, priority_rank, TaskModel, TaskPriority, TaskState};

verus! {

/// Number of edges into node `v`.
pub open spec fn in_count(edges: Seq<(int, int)>, v: int) -> nat
    decreases edges.len(),
{
    if edges.len() == 0 {
        0
    } else {
        in_count(edges.drop_last(), v) + if edges.last().1 == v {
            1nat
        } else {
            0nat
        }
    }
}

/// Targets of the edges out of node `v`, in edge insertion order.
pub open spec fn out_targets(edges: Seq<(int, int)>, v: int) -> Seq<int>
    decreases edges.len(),
{
    if edges.len() == 0 {
        Seq::empty()
    } else {
        out_targets(edges.drop_last(), v) + if edges.last().0 == v {
            seq![edges.last().1]
        } else {
            Seq::empty()
        }
    }
}

/// The priority under which a root is listed.
pub open spec fn listed_priority(t: TaskModel) -> TaskPriority {
    match t.priority {
        Some(p) => p,
        None => TaskPriority::NoPriority,
    }
}

/// The roots (nodes without incoming edges) among the first `upto` nodes
/// that are listed under `pr`, in index order.
pub open spec fn roots_under(
    nodes: Seq<TaskModel>,
    edges: Seq<(int, int)>,
    pr: TaskPriority,
    upto: int,
) -> Seq<int>
    decreases upto,
{
    if upto <= 0 {
        Seq::empty()
    } else {
        roots_under(nodes, edges, pr, upto - 1) + if in_count(edges, upto - 1) == 0
            && listed_priority(nodes[upto - 1]) == pr {
            seq![upto - 1]
        } else {
            Seq::empty()
        }
    }
}

/// The checkbox of a state: no state counts as undone.
pub open spec fn checkbox_text(st: Option<TaskState>) -> Seq<char> {
    match st {
        Some(TaskState::Completed) => seq!['[', 'x', ']'],
        Some(TaskState::WontDo) => seq!['[', 'n', 'o', 'p', 'e', ']'],
        _ => seq!['[', ' ', ']'],
    }
}

/// The token before the checkbox of a node with more than one parent.
pub open spec fn warning_text() -> Seq<char> {
    seq!['(', 'm', 'u', 'l', 't', 'i', 'p', 'l', 'e', ' ', 'p', 'a', 'r', 'e', 'n', 't', 's', ')', ' ']
}

pub open spec fn indent_text(depth: nat) -> Seq<char> {
    Seq::new(2 * depth, |i: int| ' ')
}

/// The checklist line of node `v` at the given depth.
pub open spec fn node_line(nodes: Seq<TaskModel>, edges: Seq<(int, int)>, v: int, depth: nat) -> Seq<
    char,
> {
    indent_text(depth) + seq!['-', ' '] + (if in_count(edges, v) > 1 {
        warning_text()
    } else {
        Seq::empty()
    }) + checkbox_text(nodes[v].state) + seq![' '] + nodes[v].name + seq!['\n']
}

/// Node `v` and, depth first, everything below it along outgoing edges;
/// `fuel` bounds the depth.
pub open spec fn render_node(
    nodes: Seq<TaskModel>,
    edges: Seq<(int, int)>,
    v: int,
    depth: nat,
    fuel: nat,
) -> Seq<char>
    decreases fuel, 0nat,
{
    if fuel == 0 {
        Seq::empty()
    } else {
        node_line(nodes, edges, v, depth) + render_list(
            nodes,
            edges,
            out_targets(edges, v),
            depth + 1,
            (fuel - 1) as nat,
        )
    }
}

/// Each of `vs` rendered in order.
pub open spec fn render_list(
    nodes: Seq<TaskModel>,
    edges: Seq<(int, int)>,
    vs: Seq<int>,
    depth: nat,
    fuel: nat,
) -> Seq<char>
    decreases fuel, vs.len() + 1,
{
    if vs.len() == 0 {
        Seq::empty()
    } else {
        render_list(nodes, edges, vs.drop_last(), depth, fuel) + render_node(
            nodes,
            edges,
            vs.last(),
            depth,
            fuel,
        )
    }
}

/// The order in which priority groups are listed.
pub open spec fn group_order() -> Seq<TaskPriority> {
    seq![TaskPriority::High, TaskPriority::Medium, TaskPriority::Low, TaskPriority::NoPriority]
}

/// The non-empty groups of roots among the first `k` priorities of
/// `group_order`, each with its roots in index order.
pub open spec fn groups_upto(nodes: Seq<TaskModel>, edges: Seq<(int, int)>, k: int) -> Seq<
    (TaskPriority, Seq<int>),
>
    decreases k,
{
    if k <= 0 {
        Seq::empty()
    } else {
        let pr = group_order()[k - 1];
        let rs = roots_under(nodes, edges, pr, nodes.len() as int);
        groups_upto(nodes, edges, k - 1) + if rs.len() > 0 {
            seq![(pr, rs)]
        } else {
            Seq::empty()
        }
    }
}

/// The roots grouped by priority, in the order High, Medium, Low, None,
/// empty groups left out.
pub open spec fn root_groups(nodes: Seq<TaskModel>, edges: Seq<(int, int)>) -> Seq<
    (TaskPriority, Seq<int>),
> {
    groups_upto(nodes, edges, 4)
}

/// The text of the first `k` groups.
pub open spec fn groups_text(
    nodes: Seq<TaskModel>,
    edges: Seq<(int, int)>,
    gs: Seq<(TaskPriority, Seq<int>)>,
    k: int,
) -> Seq<char>
    decreases k,
{
    if k <= 0 {
        Seq::empty()
    } else {
        groups_text(nodes, edges, gs, k - 1) + seq!['\n', '#', '#', ' '] + priority_name(
            gs[k - 1].0,
        ) + seq!['\n', '\n'] + render_list(nodes, edges, gs[k - 1].1, 0, nodes.len())
    }
}

/// The line that stands for an export without any task.
pub open spec fn nothing_text() -> Seq<char> {
    seq!['\n', 'N', 'o', 't', 'h', 'i', 'n', 'g', '.', ' ', 'E', 'e', 'k', '!', '\n']
}

/// The Markdown checklist of a graph under a title.
pub open spec fn report_text(title: Seq<char>, nodes: Seq<TaskModel>, edges: Seq<(int, int)>) -> Seq<
    char,
> {
    let gs = root_groups(nodes, edges);
    seq!['#', ' '] + title + seq!['\n'] + if gs.len() == 0 {
        nothing_text()
    } else {
        groups_text(nodes, edges, gs, gs.len() as int)
    }
}

pub open spec fn as_ints(s: Seq<usize>) -> Seq<int> {
    s.map_values(|x: usize| x as int)
}

} // verus!

verus! {

pub proof fn lemma_out_targets_in_range(edges: Seq<(int, int)>, n: int, v: int)
    requires
        edges_in_range(n, edges),
    ensures
        forall|i: int| 0 <= i < out_targets(edges, v).len() ==> 0 <= #[trigger] out_targets(edges, v)[i] < n,
    decreases edges.len(),
{
    if edges.len() > 0 {
        assert(edges_in_range(n, edges.drop_last())) by {
            assert forall|i: int| 0 <= i < edges.drop_last().len() implies 0 <= #[trigger] edges.drop_last()[i].0 < n
                && 0 <= edges.drop_last()[i].1 < n by {
                assert(edges.drop_last()[i] == edges[i]);
            }
        }
        lemma_out_targets_in_range(edges.drop_last(), n, v);
        let prev = out_targets(edges.drop_last(), v);
        let all = out_targets(edges, v);
        assert(0 <= edges[edges.len() - 1].1 < n);
        assert forall|i: int| 0 <= i < all.len() implies 0 <= #[trigger] all[i] < n by {
            if i < prev.len() {
                assert(all[i] == prev[i]);
            }
        }
    }
}

fn push_text(out: &mut Vec<char>, s: &str)
    ensures
        final(out)@ == old(out)@ + s@,
{
    let cs = chars_of(s);
    push_chars(out, &cs);
}

fn push_chars(out: &mut Vec<char>, cs: &Vec<char>)
    ensures
        final(out)@ == old(out)@ + cs@,
{
    let ghost start = out@;
    let mut i: usize = 0;
    while i < cs.len()
        invariant
            0 <= i <= cs@.len(),
            out@ == start + cs@.subrange(0, i as int),
        decreases cs@.len() - i,
    {
        out.push(cs[i]);
        i += 1;
        assert(out@ =~= start + cs@.subrange(0, i as int));
    }
    assert(cs@.subrange(0, cs@.len() as int) =~= cs@);
}

/// The checkbox that the checklist shows for a state: `[x]` for completed,
/// `[nope]` for won't do, `[ ]` for undone or no state at all.
pub fn checkbox(state: Option<TaskState>) -> (r: &'static str)
    ensures
        r@ == checkbox_text(state),
        state == Some(TaskState::Completed) ==> r@ == seq!['[', 'x', ']'],
        state == Some(TaskState::WontDo) ==> r@ == seq!['[', 'n', 'o', 'p', 'e', ']'],
        (state is None || state == Some(TaskState::Undone)) ==> r@ == seq!['[', ' ', ']'],
{
    match state {
        Some(TaskState::Completed) => {
            proof {
                reveal_strlit("[x]");
            }
            "[x]"
        },
        Some(TaskState::WontDo) => {
            proof {
                reveal_strlit("[nope]");
            }
            "[nope]"
        },
        _ => {
            proof {
                reveal_strlit("[ ]");
            }
            "[ ]"
        },
    }
}

/// Incoming-edge counts and outgoing targets of every node.
pub struct EdgeTables {
    pub in_counts: Vec<usize>,
    pub outs: Vec<Vec<usize>>,
}

impl EdgeTables {
    pub open spec fn describes(&self, n: int, edges: Seq<(int, int)>) -> bool {
        &&& self.in_counts@.len() == n
        &&& self.outs@.len() == n
        &&& forall|v: int| 0 <= v < n ==> #[trigger] self.in_counts@[v] == in_count(edges, v)
        &&& forall|v: int| 0 <= v < n ==> as_ints(#[trigger] self.outs@[v]@) == out_targets(edges, v)
    }
}

fn edge_tables(db: &TaskDb) -> (r: EdgeTables)
    requires
        db.wf(),
    ensures
        r.describes(db.nodes().len() as int, db.edges()),
{
    let n = graph_node_count(&db.task_graph);
    let ghost edges = db.edges();
    let mut in_counts: Vec<usize> = Vec::new();
    let mut outs: Vec<Vec<usize>> = Vec::new();
    let mut v: usize = 0;
    while v < n
        invariant
            n == db.nodes().len(),
            edges == db.edges(),
            0 <= v <= n,
            in_counts@.len() == v,
            outs@.len() == v,
            forall|u: int| 0 <= u < v ==> #[trigger] in_counts@[u] == in_count(edges, u),
            forall|u: int| 0 <= u < v ==> (#[trigger] outs@[u])@.len() == 0,
        decreases n - v,
    {
        in_counts.push(graph_in_degree(&db.task_graph, v));
        outs.push(Vec::new());
        v += 1;
    }
    proof {
        assert forall|u: int| 0 <= u < n implies as_ints(#[trigger] outs@[u]@) == out_targets(
            edges.subrange(0, 0),
            u,
        ) by {
            assert(as_ints(outs@[u]@) =~= Seq::<int>::empty());
        }
    }
    let es = graph_edge_list(&db.task_graph);
    let mut j: usize = 0;
    while j < es.len()
        invariant
            n == db.nodes().len(),
            edges == db.edges(),
            db.wf(),
            es@.len() == edges.len(),
            forall|k: int|
                0 <= k < es@.len() ==> (es@[k].0 as int, es@[k].1 as int) == #[trigger] edges[k],
            0 <= j <= es@.len(),
            in_counts@.len() == n,
            outs@.len() == n,
            forall|u: int| 0 <= u < n ==> #[trigger] in_counts@[u] == in_count(edges, u),
            forall|u: int|
                0 <= u < n ==> as_ints(#[trigger] outs@[u]@) == out_targets(
                    edges.subrange(0, j as int),
                    u,
                ),
        decreases es@.len() - j,
    {
        let (a, b) = es[j];
        let ghost pre = edges.subrange(0, j as int);
        let ghost post = edges.subrange(0, j + 1);
        proof {
            assert(edges[j as int] == (a as int, b as int));
            assert(post.drop_last() =~= pre);
            assert(post.last() == (a as int, b as int));
        }
        let mut l: Vec<usize> = Vec::new();
        outs.set_and_swap(a, &mut l);
        l.push(b);
        outs.set_and_swap(a, &mut l);
        j += 1;
        proof {
            assert forall|u: int| 0 <= u < n implies as_ints(#[trigger] outs@[u]@) == out_targets(
                post,
                u,
            ) by {
                if u == a {
                    assert(as_ints(outs@[u]@) =~= out_targets(pre, u) + seq![b as int]);
                }
            }
        }
    }
    assert(edges.subrange(0, es@.len() as int) =~= edges);
    EdgeTables { in_counts, outs }
}

/// Appends the checklist line of node `v` (see `node_line`).
fn push_node_line(db: &TaskDb, tables: &EdgeTables, v: usize, depth: usize, out: &mut Vec<char>)
    requires
        db.wf(),
        tables.describes(db.nodes().len() as int, db.edges()),
        v < db.nodes().len(),
    ensures
        final(out)@ == old(out)@ + node_line(db.nodes(), db.edges(), v as int, depth as nat),
{
    let ghost start = out@;
    let mut i: usize = 0;
    while i < depth
        invariant
            0 <= i <= depth,
            out@ == start + indent_text(i as nat),
        decreases depth - i,
    {
        out.push(' ');
        out.push(' ');
        i += 1;
        assert(out@ =~= start + indent_text(i as nat));
    }
    out.push('-');
    out.push(' ');
    let ghost with_dash = out@;
    assert(with_dash =~= start + indent_text(depth as nat) + seq!['-', ' ']);
    let multi = tables.in_counts[v] > 1;
    if multi {
        proof {
            reveal_strlit("(multiple parents) ");
        }
        push_text(out, "(multiple parents) ");
        assert(out@ =~= with_dash + warning_text());
    } else {
        assert(out@ =~= with_dash + Seq::<char>::empty());
    }
    let task = graph_node(&db.task_graph, v);
    push_text(out, checkbox(task.state));
    out.push(' ');
    push_text(out, task.name.as_str());
    out.push('\n');
    assert(out@ =~= start + node_line(db.nodes(), db.edges(), v as int, depth as nat));
}

/// Appends node `v` and, depth first, everything below it (see `render_node`).
fn push_node_tree(
    db: &TaskDb,
    tables: &EdgeTables,
    v: usize,
    depth: usize,
    fuel: usize,
    out: &mut Vec<char>,
)
    requires
        db.wf(),
        tables.describes(db.nodes().len() as int, db.edges()),
        v < db.nodes().len(),
        depth + fuel <= db.nodes().len(),
    ensures
        final(out)@ == old(out)@ + render_node(
            db.nodes(),
            db.edges(),
            v as int,
            depth as nat,
            fuel as nat,
        ),
    decreases fuel,
{
    if fuel == 0 {
        assert(out@ =~= old(out)@ + Seq::<char>::empty());
        return;
    }
    push_node_line(db, tables, v, depth, out);
    let ghost after_line = out@;
    let targets = &tables.outs[v];
    let ghost ts = as_ints(targets@);
    proof {
        lemma_out_targets_in_range(db.edges(), db.nodes().len() as int, v as int);
    }
    let n = graph_node_count(&db.task_graph);
    let mut i: usize = 0;
    while i < targets.len()
        invariant
            n == db.nodes().len(),
            db.wf(),
            tables.describes(db.nodes().len() as int, db.edges()),
            v < db.nodes().len(),
            depth + fuel <= db.nodes().len(),
            fuel > 0,
            *targets == tables.outs@[v as int],
            ts == as_ints(targets@),
            ts == out_targets(db.edges(), v as int),
            forall|k: int| 0 <= k < ts.len() ==> 0 <= #[trigger] ts[k] < db.nodes().len(),
            0 <= i <= targets@.len(),
            out@ == after_line + render_list(
                db.nodes(),
                db.edges(),
                ts.subrange(0, i as int),
                (depth + 1) as nat,
                (fuel - 1) as nat,
            ),
        decreases targets@.len() - i,
    {
        let t = targets[i];
        assert(ts[i as int] == t as int);
        push_node_tree(db, tables, t, depth + 1, fuel - 1, out);
        assert(ts.subrange(0, i + 1).drop_last() =~= ts.subrange(0, i as int));
        i += 1;
    }
    assert(ts.subrange(0, targets@.len() as int) =~= ts);
}

/// The priority at position `k` of `group_order`.
fn group_at(k: usize) -> (r: TaskPriority)
    requires
        k < 4,
    ensures
        r == group_order()[k as int],
{
    match k {
        0 => TaskPriority::High,
        1 => TaskPriority::Medium,
        2 => TaskPriority::Low,
        _ => TaskPriority::NoPriority,
    }
}

pub open spec fn groups_view(gs: Seq<(TaskPriority, Vec<usize>)>) -> Seq<(TaskPriority, Seq<int>)> {
    gs.map_values(|g: (TaskPriority, Vec<usize>)| (g.0, as_ints(g.1@)))
}

fn groups_with(db: &TaskDb, tables: &EdgeTables) -> (r: Vec<(TaskPriority, Vec<usize>)>)
    requires
        db.wf(),
        tables.describes(db.nodes().len() as int, db.edges()),
    ensures
        groups_view(r@) == root_groups(db.nodes(), db.edges()),
{
    let n = graph_node_count(&db.task_graph);
    let mut groups: Vec<(TaskPriority, Vec<usize>)> = Vec::new();
    let mut k: usize = 0;
    while k < 4
        invariant
            n == db.nodes().len(),
            db.wf(),
            tables.describes(db.nodes().len() as int, db.edges()),
            0 <= k <= 4,
            groups_view(groups@) == groups_upto(db.nodes(), db.edges(), k as int),
        decreases 4 - k,
    {
        let pr = group_at(k);
        let mut roots: Vec<usize> = Vec::new();
        let mut v: usize = 0;
        while v < n
            invariant
                n == db.nodes().len(),
                tables.describes(db.nodes().len() as int, db.edges()),
                0 <= v <= n,
                as_ints(roots@) == roots_under(db.nodes(), db.edges(), pr, v as int),
            decreases n - v,
        {
            let task = graph_node(&db.task_graph, v);
            let listed = match task.priority {
                Some(p) => p,
                None => TaskPriority::NoPriority,
            };
            let ghost before = roots@;
            if tables.in_counts[v] == 0 && listed == pr {
                roots.push(v);
                assert(as_ints(roots@) =~= as_ints(before) + seq![v as int]);
            } else {
                assert(as_ints(roots@) =~= as_ints(before) + Seq::<int>::empty());
            }
            v += 1;
        }
        let ghost before = groups@;
        if roots.len() > 0 {
            groups.push((pr, roots));
            assert(groups_view(groups@) =~= groups_view(before) + seq![(pr, as_ints(roots@))]);
        } else {
            assert(groups_view(groups@) =~= groups_view(before) + Seq::<(TaskPriority, Seq<int>)>::empty());
        }
        k += 1;
    }
    groups
}

impl TaskDb {
    /// The roots (nodes without incoming edges) grouped by the priority
    /// they are listed under, in the order High, Medium, Low, None; empty
    /// groups are left out and each group holds its roots in index order.
    pub fn root_groups(&self) -> (r: Vec<(TaskPriority, Vec<usize>)>)
        requires
            self.wf(),
        ensures
            groups_view(r@) == root_groups(self.nodes(), self.edges()),
    {
        let tables = edge_tables(self);
        groups_with(self, &tables)
    }

    /// The Markdown checklist: the title, then per priority group a header
    /// and each root with, depth first, the nodes below it.
    pub fn markdown_report(&self) -> (r: String)
        requires
            self.wf(),
        ensures
            r@ == report_text(self.title@, self.nodes(), self.edges()),
    {
        let tables = edge_tables(self);
        let groups = groups_with(self, &tables);
        let ghost gs = groups_view(groups@);
        let n = graph_node_count(&self.task_graph);
        let mut out: Vec<char> = Vec::new();
        out.push('#');
        out.push(' ');
        push_text(&mut out, self.title.as_str());
        out.push('\n');
        let ghost head = out@;
        assert(head =~= seq!['#', ' '] + self.title@ + seq!['\n']);
        if groups.len() == 0 {
            proof {
                reveal_strlit("\nNothing. Eek!\n");
            }
            push_text(&mut out, "\nNothing. Eek!\n");
            assert(out@ =~= head + nothing_text());
        } else {
            let mut k: usize = 0;
            assert(head + groups_text(self.nodes(), self.edges(), gs, 0) =~= head);
            while k < groups.len()
                invariant
                    n == self.nodes().len(),
                    self.wf(),
                    tables.describes(self.nodes().len() as int, self.edges()),
                    gs == groups_view(groups@),
                    gs == root_groups(self.nodes(), self.edges()),
                    0 <= k <= groups@.len(),
                    out@ == head + groups_text(self.nodes(), self.edges(), gs, k as int),
                decreases groups@.len() - k,
            {
                proof {
                    reveal_strlit("\n## ");
                    reveal_strlit("\n\n");
                }
                push_text(&mut out, "\n## ");
                push_text(&mut out, groups[k].0.ticktick_ident());
                push_text(&mut out, "\n\n");
                let ghost after_header = out@;
                let roots = &groups[k].1;
                let ghost rs = as_ints(roots@);
                assert(rs == gs[k as int].1);
                proof {
                    lemma_roots_in_range(self.nodes(), self.edges(), gs[k as int].0, self.nodes().len() as int);
                    lemma_groups_upto(self.nodes(), self.edges(), 4);
                    assert(rs == roots_under(self.nodes(), self.edges(), gs[k as int].0, n as int));
                }
                let mut i: usize = 0;
                while i < roots.len()
                    invariant
                        n == self.nodes().len(),
                        self.wf(),
                        tables.describes(self.nodes().len() as int, self.edges()),
                        rs == as_ints(roots@),
                        forall|j: int| 0 <= j < rs.len() ==> 0 <= #[trigger] rs[j] < n,
                        0 <= i <= roots@.len(),
                        out@ == after_header + render_list(
                            self.nodes(),
                            self.edges(),
                            rs.subrange(0, i as int),
                            0,
                            n as nat,
                        ),
                    decreases roots@.len() - i,
                {
                    let v = roots[i];
                    assert(rs[i as int] == v as int);
                    push_node_tree(self, &tables, v, 0, n, &mut out);
                    assert(rs.subrange(0, i + 1).drop_last() =~= rs.subrange(0, i as int));
                    i += 1;
                }
                assert(rs.subrange(0, roots@.len() as int) =~= rs);
                k += 1;
                assert(out@ =~= head + groups_text(self.nodes(), self.edges(), gs, k as int));
            }
        }
        string_of(&out)
    }
}

/// Every member of `roots_under` is a node index below `upto`.
pub proof fn lemma_roots_in_range(
    nodes: Seq<TaskModel>,
    edges: Seq<(int, int)>,
    pr: TaskPriority,
    upto: int,
)
    ensures
        forall|j: int|
            0 <= j < roots_under(nodes, edges, pr, upto).len() ==> 0 <= #[trigger] roots_under(
                nodes,
                edges,
                pr,
                upto,
            )[j] < upto,
    decreases upto,
{
    if upto > 0 {
        lemma_roots_in_range(nodes, edges, pr, upto - 1);
        let prev = roots_under(nodes, edges, pr, upto - 1);
        let all = roots_under(nodes, edges, pr, upto);
        assert forall|j: int| 0 <= j < all.len() implies 0 <= #[trigger] all[j] < upto by {
            if j < prev.len() {
                assert(all[j] == prev[j]);
            }
        }
    }
}

proof fn lemma_group_order_rank(j: int)
    requires
        0 <= j < 4,
    ensures
        priority_rank(group_order()[j]) == j,
{
}

/// Each group of `groups_upto` is the non-empty set of roots of its own
/// priority, the groups' priorities strictly increase, and every priority
/// among the first `k` with a root has its group.
pub proof fn lemma_groups_upto(nodes: Seq<TaskModel>, edges: Seq<(int, int)>, k: int)
    requires
        0 <= k <= 4,
    ensures
        forall|i: int|
            0 <= i < groups_upto(nodes, edges, k).len() ==> (#[trigger] groups_upto(nodes, edges, k)[i]).1
                == roots_under(nodes, edges, groups_upto(nodes, edges, k)[i].0, nodes.len() as int)
                && groups_upto(nodes, edges, k)[i].1.len() > 0 && priority_rank(
                groups_upto(nodes, edges, k)[i].0,
            ) < k,
        forall|i: int, j: int|
            0 <= i < j < groups_upto(nodes, edges, k).len() ==> priority_rank(
                (#[trigger] groups_upto(nodes, edges, k)[i]).0,
            ) < priority_rank((#[trigger] groups_upto(nodes, edges, k)[j]).0),
        forall|pr: TaskPriority|
            priority_rank(pr) < k && (#[trigger] roots_under(nodes, edges, pr, nodes.len() as int)).len() > 0
                ==> exists|i: int|
                0 <= i < groups_upto(nodes, edges, k).len() && (#[trigger] groups_upto(
                    nodes,
                    edges,
                    k,
                )[i]).0 == pr,
    decreases k,
{
    if k > 0 {
        lemma_groups_upto(nodes, edges, k - 1);
        lemma_group_order_rank(k - 1);
        let prev = groups_upto(nodes, edges, k - 1);
        let all = groups_upto(nodes, edges, k);
        let pr = group_order()[k - 1];
        let rs = roots_under(nodes, edges, pr, nodes.len() as int);
        assert forall|i: int| 0 <= i < prev.len() implies all[i] == prev[i] by {}
        assert forall|i: int|
            0 <= i < all.len() implies (#[trigger] all[i]).1 == roots_under(
                nodes,
                edges,
                all[i].0,
                nodes.len() as int,
            ) && all[i].1.len() > 0 && priority_rank(all[i].0) < k by {
            if i >= prev.len() {
                assert(all[i] == (pr, rs));
            }
        }
        assert forall|i: int, j: int| 0 <= i < j < all.len() implies priority_rank(
            (#[trigger] all[i]).0,
        ) < priority_rank((#[trigger] all[j]).0) by {
            if j >= prev.len() {
                assert(all[j] == (pr, rs));
                assert(all[i] == prev[i]);
            } else {
                assert(all[i] == prev[i]);
                assert(all[j] == prev[j]);
            }
        }
        assert forall|q: TaskPriority|
            priority_rank(q) < k && (#[trigger] roots_under(nodes, edges, q, nodes.len() as int)).len() > 0
                implies exists|i: int| 0 <= i < all.len() && (#[trigger] all[i]).0 == q by {
            if priority_rank(q) < k - 1 {
                let i = choose|i: int| 0 <= i < prev.len() && (#[trigger] prev[i]).0 == q;
                assert(all[i] == prev[i]);
            } else {
                assert(q == pr) by {
                    assert(priority_rank(q) == priority_rank(pr));
                }
                assert(all[prev.len() as int] == (pr, rs));
            }
        }
    }
}

} // verus!
