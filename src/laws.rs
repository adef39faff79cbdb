use vstd::prelude::*;
use crate::report::{
    groups_upto, in_count, lemma_groups_upto, lemma_roots_in_range, out_targets, render_list,
    render_node, indent_text, listed_priority, node_line, nothing_text,
    report_text, root_groups, roots_under, warning_text,
};
use crate::db::{build_all, edges_to, name_matches, resolve_parent};
use crate::entry::EntryModel;
use crate::grammar::{close_level, document, has_at, stop_position, line_entry, read_levels, task_line, tasks, lemma_task_line};
use crate::task::{placeholder, priority_rank, TaskModel, TaskPriority, TaskState};

verus! {

/// A node is among the roots listed under `pr` exactly when it has no
/// incoming edge and is listed under `pr`.
pub proof fn lemma_roots_under_members(
    nodes: Seq<TaskModel>,
    edges: Seq<(int, int)>,
    pr: TaskPriority,
    upto: int,
)
    requires
        upto <= nodes.len(),
    ensures
        forall|v: int|
            #[trigger] roots_under(nodes, edges, pr, upto).contains(v) <==> (0 <= v < upto
                && in_count(edges, v) == 0 && listed_priority(nodes[v]) == pr),
    decreases upto,
{
    if upto > 0 {
        lemma_roots_under_members(nodes, edges, pr, upto - 1);
        let prev = roots_under(nodes, edges, pr, upto - 1);
        let all = roots_under(nodes, edges, pr, upto);
        let cond = in_count(edges, upto - 1) == 0 && listed_priority(nodes[upto - 1]) == pr;
        assert forall|v: int| #[trigger] all.contains(v) <==> (0 <= v < upto && in_count(edges, v) == 0
            && listed_priority(nodes[v]) == pr) by {
            if all.contains(v) {
                let j = choose|j: int| 0 <= j < all.len() && all[j] == v;
                if j < prev.len() {
                    assert(prev[j] == v);
                    assert(prev.contains(v));
                } else {
                    assert(cond && v == upto - 1);
                }
            }
            if 0 <= v < upto - 1 && in_count(edges, v) == 0 && listed_priority(nodes[v]) == pr {
                assert(prev.contains(v));
                let j = choose|j: int| 0 <= j < prev.len() && prev[j] == v;
                assert(all[j] == v);
            }
            if v == upto - 1 && in_count(edges, v) == 0 && listed_priority(nodes[v]) == pr {
                assert(all[all.len() - 1] == v);
            }
        }
    } else {
        assert(roots_under(nodes, edges, pr, upto) =~= Seq::<int>::empty());
    }
}

/// In the checklist's grouping, the groups come in strictly increasing
/// priority order (High, Medium, Low, None), each group holds only roots
/// listed under its priority, and every root (a node without incoming
/// edges) stands in exactly one group.
pub proof fn law_root_grouping(nodes: Seq<TaskModel>, edges: Seq<(int, int)>)
    ensures
        forall|i: int, j: int|
            0 <= i < j < root_groups(nodes, edges).len() ==> priority_rank(
                (#[trigger] root_groups(nodes, edges)[i]).0,
            ) < priority_rank((#[trigger] root_groups(nodes, edges)[j]).0),
        forall|i: int, v: int|
            0 <= i < root_groups(nodes, edges).len() && #[trigger] root_groups(nodes, edges)[i].1.contains(v)
                ==> 0 <= v < nodes.len() && in_count(edges, v) == 0 && listed_priority(nodes[v])
                == root_groups(nodes, edges)[i].0,
        forall|v: int|
            0 <= v < nodes.len() && #[trigger] in_count(edges, v) == 0 ==> exists|i: int|
                0 <= i < root_groups(nodes, edges).len() && #[trigger] root_groups(nodes, edges)[i].1.contains(v)
                    && forall|i2: int|
                    0 <= i2 < root_groups(nodes, edges).len() && #[trigger] root_groups(nodes, edges)[i2].1.contains(v) ==> i2 == i,
{
    let gs = root_groups(nodes, edges);
    let n = nodes.len() as int;
    lemma_groups_upto(nodes, edges, 4);
    assert forall|i: int, v: int| 0 <= i < gs.len() && #[trigger] gs[i].1.contains(v) implies 0
        <= v < n && in_count(edges, v) == 0 && listed_priority(nodes[v]) == gs[i].0 by {
        lemma_roots_under_members(nodes, edges, gs[i].0, n);
    }
    assert forall|v: int| 0 <= v < n && #[trigger] in_count(edges, v) == 0 implies exists|i: int|
        0 <= i < gs.len() && #[trigger] gs[i].1.contains(v) && forall|i2: int|
            0 <= i2 < gs.len() && #[trigger] gs[i2].1.contains(v) ==> i2 == i by {
        let pr = listed_priority(nodes[v]);
        lemma_roots_under_members(nodes, edges, pr, n);
        assert(roots_under(nodes, edges, pr, n).contains(v));
        assert(roots_under(nodes, edges, pr, n).len() > 0);
        let i = choose|i: int| 0 <= i < gs.len() && (#[trigger] gs[i]).0 == pr;
        assert(gs[i].1.contains(v));
        assert forall|i2: int| 0 <= i2 < gs.len() && #[trigger] gs[i2].1.contains(v) implies i2
            == i by {
            lemma_roots_under_members(nodes, edges, gs[i2].0, n);
            if i2 < i {
                assert(priority_rank(gs[i2].0) < priority_rank(gs[i].0));
            } else if i < i2 {
                assert(priority_rank(gs[i].0) < priority_rank(gs[i2].0));
            }
        }
    }
}

/// The checklist line of a node carries the multiple-parents token right
/// after its indentation and dash exactly when the node has two or more
/// incoming edges.
pub proof fn law_multi_parent_warning(
    nodes: Seq<TaskModel>,
    edges: Seq<(int, int)>,
    v: int,
    depth: nat,
)
    requires
        0 <= v < nodes.len(),
    ensures
        has_at(node_line(nodes, edges, v, depth), (2 * depth + 2) as int, warning_text()) <==> in_count(
            edges,
            v,
        ) >= 2,
{
    let line = node_line(nodes, edges, v, depth);
    let at = (2 * depth + 2) as int;
    let pre = indent_text(depth) + seq!['-', ' '];
    assert(pre.len() == at);
    if in_count(edges, v) >= 2 {
        assert(line.subrange(at, at + warning_text().len() as int) =~= warning_text());
    } else {
        assert(line[at] == '[');
        if has_at(line, at, warning_text()) {
            assert(line.subrange(at, at + warning_text().len() as int)[0] == '(');
        }
    }
}

/// The task lines that the indentation reader consumes from `p` when it
/// looks for a line at `depth`: after a line it looks one level deeper,
/// after a miss one level shallower, and it stops on a miss at depth 1.
/// Each line is given with its depth, name and parent name.
pub open spec fn lines_read(s: Seq<char>, p: int, depth: nat) -> Seq<(nat, Seq<char>, Option<Seq<char>>)>
    decreases s.len() - p, depth,
    via lines_read_decreases
{
    if !(0 <= p <= s.len()) || depth == 0 {
        Seq::empty()
    } else {
        match task_line(s, p, depth) {
            Some(line) => seq![(depth, line.0, line.1)] + lines_read(s, line.2, depth + 1),
            None => if depth == 1 {
                Seq::empty()
            } else {
                lines_read(s, p, (depth - 1) as nat)
            },
        }
    }
}

#[via_fn]
proof fn lines_read_decreases(s: Seq<char>, p: int, depth: nat) {
    if 0 <= p <= s.len() && depth > 0 {
        if task_line(s, p, depth) is Some {
            lemma_task_line(s, p, depth);
        }
    }
}

/// An entry and, depth first, everything nested in it, as lines with
/// their depth.
pub open spec fn flatten_entry(e: EntryModel, depth: nat) -> Seq<(nat, Seq<char>, Option<Seq<char>>)>
    decreases e,
{
    seq![(depth, e.name, e.parent)] + flatten_entries(e.children, depth + 1)
}

/// Entries in order, each flattened by `flatten_entry`.
pub open spec fn flatten_entries(es: Seq<EntryModel>, depth: nat) -> Seq<
    (nat, Seq<char>, Option<Seq<char>>),
>
    decreases es,
{
    if es.len() == 0 {
        Seq::empty()
    } else {
        flatten_entries(es.drop_last(), depth) + flatten_entry(es.last(), depth)
    }
}

/// The open sibling lists of the reader, each flattened at its own depth.
pub open spec fn flatten_stack(stack: Seq<Seq<EntryModel>>) -> Seq<(nat, Seq<char>, Option<Seq<char>>)>
    decreases stack.len(),
{
    if stack.len() == 0 {
        Seq::empty()
    } else {
        flatten_stack(stack.drop_last()) + flatten_entries(stack.last(), stack.len())
    }
}

/// Every open list but the innermost ends with an entry whose children are
/// still being read, so it holds none yet.
pub open spec fn open_lists(stack: Seq<Seq<EntryModel>>) -> bool {
    forall|k: int|
        0 <= k < stack.len() - 1 ==> (#[trigger] stack[k]).len() > 0 && stack[k].last().children.len() == 0
}

proof fn lemma_flatten_stack_close(stack: Seq<Seq<EntryModel>>)
    requires
        stack.len() >= 2,
        open_lists(stack),
    ensures
        flatten_stack(close_level(stack)) == flatten_stack(stack),
        open_lists(close_level(stack)),
{
    let d = stack.len();
    let rest = stack.drop_last();
    let up = rest.last();
    let last = up.last();
    let closed = close_level(stack);
    let new_last = EntryModel {
        name: last.name,
        priority: last.priority,
        state: last.state,
        parent: last.parent,
        children: stack.last(),
    };
    let new_up = up.update(up.len() - 1, new_last);
    assert(stack[d - 2] == up);
    assert(closed.drop_last() =~= rest.drop_last());
    assert(closed.last() == new_up);
    assert(new_up.drop_last() =~= up.drop_last());
    assert(new_up.last() == new_last);
    assert(last.children =~= Seq::<EntryModel>::empty());
    assert(flatten_entries(last.children, (d - 1 + 1) as nat) =~= Seq::empty());
    assert(flatten_entry(last, (d - 1) as nat) =~= seq![((d - 1) as nat, last.name, last.parent)]);
    assert(flatten_entry(new_last, (d - 1) as nat) == seq![((d - 1) as nat, last.name, last.parent)]
        + flatten_entries(stack.last(), d as nat));
    assert(flatten_entries(new_up, (d - 1) as nat) =~= flatten_entries(up, (d - 1) as nat)
        + flatten_entries(stack.last(), d as nat));
    assert(rest.drop_last().len() == d - 2);
    assert(flatten_stack(closed) =~= flatten_stack(rest.drop_last()) + flatten_entries(
        up,
        (d - 1) as nat,
    ) + flatten_entries(stack.last(), d as nat));
    assert(flatten_stack(rest) =~= flatten_stack(rest.drop_last()) + flatten_entries(
        up,
        (d - 1) as nat,
    ));
    assert(open_lists(closed)) by {
        assert forall|k: int| 0 <= k < closed.len() - 1 implies (#[trigger] closed[k]).len() > 0
            && closed[k].last().children.len() == 0 by {
            assert(closed[k] == stack[k]);
        }
    }
}

proof fn lemma_read_levels_lines(
    s: Seq<char>,
    p: int,
    stack: Seq<Seq<EntryModel>>,
    pr: TaskPriority,
    st: TaskState,
)
    requires
        0 <= p <= s.len(),
        stack.len() >= 1,
        open_lists(stack),
    ensures
        flatten_entries(read_levels(s, p, stack, pr, st).0, 1) == flatten_stack(stack) + lines_read(
            s,
            p,
            stack.len() as nat,
        ),
    decreases s.len() - p, stack.len(),
{
    let d = stack.len();
    match task_line(s, p, d as nat) {
        Some(line) => {
            lemma_task_line(s, p, d as nat);
            let e = line_entry(line, d as nat, pr, st);
            let top = stack[d - 1].push(e);
            let next = stack.update(d - 1, top).push(Seq::empty());
            assert(next.drop_last() == stack.update(d - 1, top));
            assert(next.drop_last().drop_last() =~= stack.drop_last());
            assert(top.drop_last() =~= stack[d - 1]);
            assert(flatten_entries(e.children, (d + 1) as nat) =~= Seq::empty());
            assert(flatten_entries(Seq::<EntryModel>::empty(), (d + 1) as nat) =~= Seq::empty());
            let upd = stack.update(d - 1, top);
            assert(upd.drop_last() =~= stack.drop_last());
            assert(upd.last() == top);
            assert(flatten_entry(e, d as nat) =~= seq![(d as nat, line.0, line.1)]);
            assert(flatten_entries(top, d as nat) == flatten_entries(stack[d - 1], d as nat)
                + flatten_entry(e, d as nat));
            assert(flatten_stack(upd) == flatten_stack(stack.drop_last()) + flatten_entries(
                top,
                d as nat,
            ));
            assert(flatten_stack(stack) == flatten_stack(stack.drop_last()) + flatten_entries(
                stack[d - 1],
                d as nat,
            ));
            assert(flatten_stack(next) == flatten_stack(upd) + flatten_entries(
                Seq::<EntryModel>::empty(),
                (d + 1) as nat,
            ));
            assert(flatten_stack(next) =~= flatten_stack(stack) + seq![(d as nat, line.0, line.1)]);
            assert(open_lists(next)) by {
                assert forall|k: int| 0 <= k < next.len() - 1 implies (#[trigger] next[k]).len() > 0
                    && next[k].last().children.len() == 0 by {
                    if k < d - 1 {
                        assert(next[k] == stack[k]);
                    } else {
                        assert(next[k] == top);
                    }
                }
            }
            lemma_read_levels_lines(s, line.2, next, pr, st);
            assert(flatten_stack(stack) + lines_read(s, p, d as nat) =~= flatten_stack(stack) + seq![
                (d as nat, line.0, line.1),
            ] + lines_read(s, line.2, (d + 1) as nat));
        },
        None => {
            if d == 1 {
                assert(stack.drop_last() =~= Seq::<Seq<EntryModel>>::empty());
                assert(flatten_stack(stack.drop_last()) =~= Seq::empty());
                assert(flatten_stack(stack) =~= flatten_entries(stack[0], 1));
                assert(lines_read(s, p, 1) =~= Seq::empty());
            } else {
                lemma_flatten_stack_close(stack);
                lemma_read_levels_lines(s, p, close_level(stack), pr, st);
            }
        },
    }
}

/// The entries read from a status subsection, flattened depth first with
/// their depths, are exactly the task lines read, in document order: each
/// entry's children are the lines one level deeper that directly follow it.
pub proof fn law_indentation_fidelity(s: Seq<char>, p: int, pr: TaskPriority, st: TaskState)
    requires
        0 <= p <= s.len(),
    ensures
        flatten_entries(tasks(s, p, pr, st).0, 1) == lines_read(s, p, 1),
{
    let stack = seq![Seq::<EntryModel>::empty()];
    assert(stack.drop_last() =~= Seq::<Seq<EntryModel>>::empty());
    assert(flatten_stack(stack.drop_last()) =~= Seq::empty());
    assert(flatten_entries(Seq::<EntryModel>::empty(), 1) =~= Seq::empty());
    assert(flatten_stack(stack) =~= Seq::empty());
    lemma_read_levels_lines(s, p, stack, pr, st);
    assert(Seq::<(nat, Seq<char>, Option<Seq<char>>)>::empty() + lines_read(s, p, 1) =~= lines_read(s, p, 1));
}

/// The matches of a name are the nodes that carry it, each once, in index order.
pub proof fn lemma_name_matches(nodes: Seq<TaskModel>, name: Seq<char>)
    ensures
        forall|m: int| #[trigger] name_matches(nodes, name).contains(m) <==> (0 <= m < nodes.len()
            && nodes[m].name == name),
        forall|i: int, j: int|
            0 <= i < j < name_matches(nodes, name).len() ==> (#[trigger] name_matches(nodes, name)[i])
                < (#[trigger] name_matches(nodes, name)[j]),
    decreases nodes.len(),
{
    if nodes.len() > 0 {
        let prev = name_matches(nodes.drop_last(), name);
        let all = name_matches(nodes, name);
        let last = nodes.len() - 1;
        lemma_name_matches(nodes.drop_last(), name);
        assert forall|m: int| #[trigger] all.contains(m) <==> (0 <= m < nodes.len() && nodes[m].name
            == name) by {
            if all.contains(m) {
                let j = choose|j: int| 0 <= j < all.len() && all[j] == m;
                if j < prev.len() {
                    assert(prev[j] == m);
                    assert(prev.contains(m));
                    assert(nodes.drop_last()[m] == nodes[m]);
                }
            }
            if 0 <= m < last && nodes[m].name == name {
                assert(nodes.drop_last()[m] == nodes[m]);
                assert(prev.contains(m));
                let j = choose|j: int| 0 <= j < prev.len() && prev[j] == m;
                assert(all[j] == m);
            }
            if m == last && nodes[m].name == name {
                assert(all[all.len() - 1] == m);
            }
        }
        assert forall|i: int, j: int| 0 <= i < j < all.len() implies (#[trigger] all[i]) < (
        #[trigger] all[j]) by {
            assert(all[i] == prev[i] || i >= prev.len());
            if j >= prev.len() {
                assert(all[j] == last);
                assert(prev.contains(prev[i]));
            } else {
                assert(all[j] == prev[j]);
            }
        }
    }
}

/// Resolving the parent name `pn` of node `id`: where no node carries that
/// name, one placeholder node of that name is added with a single edge to
/// `id`; otherwise no node is added and one edge is added to `id` from each
/// node of that name, in index order, and from no other.
pub proof fn law_parent_resolution(
    nodes: Seq<TaskModel>,
    edges: Seq<(int, int)>,
    id: int,
    pn: Seq<char>,
)
    ensures
        ({
            let r = resolve_parent(nodes, edges, id, Some(pn));
            let ms = name_matches(nodes, pn);
            &&& (forall|m: int| 0 <= m < nodes.len() ==> nodes[m].name != pn) ==> r.0 == nodes.push(
                placeholder(pn),
            ) && r.1 == edges.push((nodes.len() as int, id))
            &&& (exists|m: int| 0 <= m < nodes.len() && nodes[m].name == pn) ==> {
                &&& r.0 == nodes
                &&& r.1.subrange(0, edges.len() as int) == edges
                &&& r.1.len() == edges.len() + ms.len()
                &&& forall|k: int|
                    edges.len() <= k < r.1.len() ==> (#[trigger] r.1[k]).1 == id && 0 <= r.1[k].0
                        < nodes.len() && nodes[r.1[k].0].name == pn
                &&& forall|m: int|
                    0 <= m < nodes.len() && nodes[m].name == pn ==> r.1.subrange(
                        edges.len() as int,
                        r.1.len() as int,
                    ).contains((m, id))
                &&& forall|k1: int, k2: int|
                    edges.len() <= k1 < k2 < r.1.len() ==> (#[trigger] r.1[k1]).0 < (
                    #[trigger] r.1[k2]).0
            }
        }),
{
    let r = resolve_parent(nodes, edges, id, Some(pn));
    let ms = name_matches(nodes, pn);
    lemma_name_matches(nodes, pn);
    if forall|m: int| 0 <= m < nodes.len() ==> nodes[m].name != pn {
        if ms.len() > 0 {
            assert(ms.contains(ms[0]));
        }
    }
    if exists|m: int| 0 <= m < nodes.len() && nodes[m].name == pn {
        let m0 = choose|m: int| 0 <= m < nodes.len() && nodes[m].name == pn;
        assert(ms.contains(m0));
        let added = edges_to(ms, id);
        assert(r.1 == edges + added);
        assert(r.1.subrange(0, edges.len() as int) =~= edges);
        assert(r.1.subrange(edges.len() as int, r.1.len() as int) =~= added);
        assert forall|k: int| edges.len() <= k < r.1.len() implies (#[trigger] r.1[k]).1 == id && 0
            <= r.1[k].0 < nodes.len() && nodes[r.1[k].0].name == pn by {
            assert(r.1[k] == (ms[k - edges.len()], id));
            assert(ms.contains(ms[k - edges.len()]));
        }
        assert forall|m: int| 0 <= m < nodes.len() && nodes[m].name == pn implies r.1.subrange(
            edges.len() as int,
            r.1.len() as int,
        ).contains((m, id)) by {
            assert(ms.contains(m));
            let j = choose|j: int| 0 <= j < ms.len() && ms[j] == m;
            assert(added[j] == (m, id));
        }
        assert forall|k1: int, k2: int| edges.len() <= k1 < k2 < r.1.len() implies (
        #[trigger] r.1[k1]).0 < (#[trigger] r.1[k2]).0 by {
            assert(r.1[k1] == (ms[k1 - edges.len()], id));
            assert(r.1[k2] == (ms[k2 - edges.len()], id));
        }
    }
}

/// A document that has a title but no task lines gives an empty graph,
/// whose checklist is the title followed by the single "nothing" line.
pub proof fn law_empty_document(s: Seq<char>)
    requires
        match document(s) {
            Some((_, entries)) => entries.len() == 0,
            None => false,
        },
    ensures
        ({
            let (title, entries) = document(s)->0;
            let g = build_all(Seq::empty(), Seq::empty(), entries);
            &&& g.0.len() == 0
            &&& report_text(title, g.0, g.1) == seq!['#', ' '] + title + seq!['\n'] + nothing_text()
        }),
{
    let (title, entries) = document(s)->0;
    let g = build_all(Seq::empty(), Seq::empty(), entries);
    let nodes = g.0;
    let edges = g.1;
    assert(nodes.len() == 0);
    lemma_groups_upto(nodes, edges, 4);
    let gs = root_groups(nodes, edges);
    if gs.len() > 0 {
        assert(roots_under(nodes, edges, gs[0].0, 0) =~= Seq::<int>::empty());
        assert(gs[0].1.len() > 0);
    }
}

/// A text that does not start with the title marker `"# "` is rejected,
/// with reading stopped at its first character.
pub proof fn law_missing_title_rejected(s: Seq<char>)
    requires
        !has_at(s, 0, seq!['#', ' ']),
    ensures
        document(s) is None,
        stop_position(s) == 0,
{
}

/// Every line in the flattening of entries at `depth` is at `depth` or deeper.
pub proof fn lemma_flatten_entries_depths(es: Seq<EntryModel>, depth: nat)
    ensures
        forall|k: int|
            0 <= k < flatten_entries(es, depth).len() ==> (#[trigger] flatten_entries(es, depth)[k]).0
                >= depth,
    decreases es,
{
    if es.len() > 0 {
        lemma_flatten_entries_depths(es.drop_last(), depth);
        lemma_flatten_entry_depths(es.last(), depth);
        let a = flatten_entries(es.drop_last(), depth);
        let b = flatten_entry(es.last(), depth);
        assert forall|k: int| 0 <= k < (a + b).len() implies (#[trigger] (a + b)[k]).0 >= depth by {
            if k < a.len() {
                assert((a + b)[k] == a[k]);
            } else {
                assert((a + b)[k] == b[k - a.len()]);
            }
        }
    }
}

/// The flattening of an entry at `depth` is its own line, then only lines
/// deeper than `depth`: the lines of what is nested in it.
pub proof fn lemma_flatten_entry_depths(e: EntryModel, depth: nat)
    ensures
        flatten_entry(e, depth)[0] == (depth, e.name, e.parent),
        forall|k: int|
            1 <= k < flatten_entry(e, depth).len() ==> (#[trigger] flatten_entry(e, depth)[k]).0 > depth,
    decreases e,
{
    lemma_flatten_entries_depths(e.children, depth + 1);
    let c = flatten_entries(e.children, depth + 1);
    assert forall|k: int| 1 <= k < flatten_entry(e, depth).len() implies (
    #[trigger] flatten_entry(e, depth)[k]).0 > depth by {
        assert(flatten_entry(e, depth)[k] == c[k - 1]);
    }
}

/// The direct children of an entry at `depth`, flattened at `depth + 1`,
/// are the block that follows its line: each child starts with its own line
/// at `depth + 1`, followed only by deeper lines.
pub proof fn law_children_blocks(e: EntryModel, depth: nat)
    ensures
        flatten_entry(e, depth) == seq![(depth, e.name, e.parent)] + flatten_entries(
            e.children,
            depth + 1,
        ),
        forall|i: int|
            0 <= i < e.children.len() ==> flatten_entry(#[trigger] e.children[i], depth + 1)[0] == (
                (depth + 1) as nat,
                e.children[i].name,
                e.children[i].parent,
            ),
        forall|i: int, k: int|
            0 <= i < e.children.len() && 1 <= k < flatten_entry(e.children[i], depth + 1).len()
                ==> (#[trigger] flatten_entry(e.children[i], depth + 1)[k]).0 > depth + 1,
        forall|k: int|
            1 <= k < flatten_entry(e, depth).len() ==> (#[trigger] flatten_entry(e, depth)[k]).0 > depth,
{
    lemma_flatten_entry_depths(e, depth);
    assert forall|i: int| 0 <= i < e.children.len() implies flatten_entry(
        #[trigger] e.children[i],
        depth + 1,
    )[0] == ((depth + 1) as nat, e.children[i].name, e.children[i].parent) by {
        lemma_flatten_entry_depths(e.children[i], depth + 1);
    }
    assert forall|i: int, k: int|
        0 <= i < e.children.len() && 1 <= k < flatten_entry(e.children[i], depth + 1).len() implies (
        #[trigger] flatten_entry(e.children[i], depth + 1)[k]).0 > depth + 1 by {
        lemma_flatten_entry_depths(e.children[i], depth + 1);
    }
}

/// The lines that `render_node` writes, as (node, depth) pairs in order.
pub open spec fn node_items(edges: Seq<(int, int)>, v: int, depth: nat, fuel: nat) -> Seq<(int, nat)>
    decreases fuel, 0nat,
{
    if fuel == 0 {
        Seq::empty()
    } else {
        seq![(v, depth)] + list_items(edges, out_targets(edges, v), depth + 1, (fuel - 1) as nat)
    }
}

/// The lines that `render_list` writes, as (node, depth) pairs in order.
pub open spec fn list_items(edges: Seq<(int, int)>, vs: Seq<int>, depth: nat, fuel: nat) -> Seq<
    (int, nat),
>
    decreases fuel, vs.len() + 1,
{
    if vs.len() == 0 {
        Seq::empty()
    } else {
        list_items(edges, vs.drop_last(), depth, fuel) + node_items(edges, vs.last(), depth, fuel)
    }
}

/// The checklist lines of the given (node, depth) pairs, in order.
pub open spec fn lines_text(nodes: Seq<TaskModel>, edges: Seq<(int, int)>, items: Seq<(int, nat)>) -> Seq<
    char,
>
    decreases items.len(),
{
    if items.len() == 0 {
        Seq::empty()
    } else {
        lines_text(nodes, edges, items.drop_last()) + node_line(
            nodes,
            edges,
            items.last().0,
            items.last().1,
        )
    }
}

/// The nodes of the lines printed without indentation, in order.
pub open spec fn unindented(items: Seq<(int, nat)>) -> Seq<int>
    decreases items.len(),
{
    if items.len() == 0 {
        Seq::empty()
    } else {
        unindented(items.drop_last()) + if items.last().1 == 0 {
            seq![items.last().0]
        } else {
            Seq::empty()
        }
    }
}

proof fn lemma_lines_text_concat(
    nodes: Seq<TaskModel>,
    edges: Seq<(int, int)>,
    a: Seq<(int, nat)>,
    b: Seq<(int, nat)>,
)
    ensures
        lines_text(nodes, edges, a + b) == lines_text(nodes, edges, a) + lines_text(nodes, edges, b),
    decreases b.len(),
{
    if b.len() == 0 {
        assert(a + b =~= a);
        assert(lines_text(nodes, edges, a) + lines_text(nodes, edges, b) =~= lines_text(nodes, edges, a));
    } else {
        lemma_lines_text_concat(nodes, edges, a, b.drop_last());
        assert((a + b).drop_last() =~= a + b.drop_last());
        assert((a + b).last() == b.last());
        assert(lines_text(nodes, edges, a + b) =~= lines_text(nodes, edges, a) + lines_text(nodes, edges, b));
    }
}

proof fn lemma_unindented_concat(a: Seq<(int, nat)>, b: Seq<(int, nat)>)
    ensures
        unindented(a + b) == unindented(a) + unindented(b),
    decreases b.len(),
{
    if b.len() == 0 {
        assert(a + b =~= a);
        assert(unindented(a) + unindented(b) =~= unindented(a));
    } else {
        lemma_unindented_concat(a, b.drop_last());
        assert((a + b).drop_last() =~= a + b.drop_last());
        assert((a + b).last() == b.last());
        assert(unindented(a + b) =~= unindented(a) + unindented(b));
    }
}

proof fn lemma_unindented_none(items: Seq<(int, nat)>)
    requires
        forall|k: int| 0 <= k < items.len() ==> (#[trigger] items[k]).1 > 0,
    ensures
        unindented(items) == Seq::<int>::empty(),
    decreases items.len(),
{
    if items.len() > 0 {
        assert forall|k: int| 0 <= k < items.drop_last().len() implies (
        #[trigger] items.drop_last()[k]).1 > 0 by {
            assert(items.drop_last()[k] == items[k]);
        }
        lemma_unindented_none(items.drop_last());
        assert(items.last() == items[items.len() - 1]);
        assert(unindented(items) =~= Seq::<int>::empty());
    }
}

proof fn lemma_node_items(nodes: Seq<TaskModel>, edges: Seq<(int, int)>, v: int, depth: nat, fuel: nat)
    ensures
        render_node(nodes, edges, v, depth, fuel) == lines_text(
            nodes,
            edges,
            node_items(edges, v, depth, fuel),
        ),
        forall|k: int|
            0 <= k < node_items(edges, v, depth, fuel).len() ==> (#[trigger] node_items(
                edges,
                v,
                depth,
                fuel,
            )[k]).1 >= depth,
        fuel > 0 ==> node_items(edges, v, depth, fuel)[0] == (v, depth),
        forall|k: int|
            1 <= k < node_items(edges, v, depth, fuel).len() ==> (#[trigger] node_items(
                edges,
                v,
                depth,
                fuel,
            )[k]).1 > depth,
    decreases fuel, 0nat,
{
    if fuel > 0 {
        let ts = out_targets(edges, v);
        let rest = list_items(edges, ts, depth + 1, (fuel - 1) as nat);
        let items = node_items(edges, v, depth, fuel);
        lemma_list_items(nodes, edges, ts, depth + 1, (fuel - 1) as nat);
        lemma_lines_text_concat(nodes, edges, seq![(v, depth)], rest);
        assert(seq![(v, depth)].drop_last() =~= Seq::<(int, nat)>::empty());
        assert(lines_text(nodes, edges, seq![(v, depth)].drop_last()) =~= Seq::<char>::empty());
        assert(seq![(v, depth)].last() == (v, depth));
        assert(lines_text(nodes, edges, seq![(v, depth)]) =~= node_line(nodes, edges, v, depth));
        assert forall|k: int| 1 <= k < items.len() implies (#[trigger] items[k]).1 > depth by {
            assert(items[k] == rest[k - 1]);
        }
    }
}

proof fn lemma_list_items(
    nodes: Seq<TaskModel>,
    edges: Seq<(int, int)>,
    vs: Seq<int>,
    depth: nat,
    fuel: nat,
)
    ensures
        render_list(nodes, edges, vs, depth, fuel) == lines_text(
            nodes,
            edges,
            list_items(edges, vs, depth, fuel),
        ),
        forall|k: int|
            0 <= k < list_items(edges, vs, depth, fuel).len() ==> (#[trigger] list_items(
                edges,
                vs,
                depth,
                fuel,
            )[k]).1 >= depth,
    decreases fuel, vs.len() + 1,
{
    if vs.len() > 0 {
        let a = list_items(edges, vs.drop_last(), depth, fuel);
        let b = node_items(edges, vs.last(), depth, fuel);
        lemma_list_items(nodes, edges, vs.drop_last(), depth, fuel);
        lemma_node_items(nodes, edges, vs.last(), depth, fuel);
        lemma_lines_text_concat(nodes, edges, a, b);
        assert forall|k: int| 0 <= k < (a + b).len() implies (#[trigger] (a + b)[k]).1 >= depth by {
            if k < a.len() {
                assert((a + b)[k] == a[k]);
            } else {
                assert((a + b)[k] == b[k - a.len()]);
            }
        }
    } else {
        assert(lines_text(nodes, edges, Seq::<(int, nat)>::empty()) =~= Seq::<char>::empty());
    }
}

/// Writing nodes `rs` at depth 0 writes, line by line, the pairs of
/// `list_items`, and the lines without indentation are those of `rs`
/// themselves, each once and in order; every other line is indented.
pub proof fn law_unindented_lines(nodes: Seq<TaskModel>, edges: Seq<(int, int)>, rs: Seq<int>, fuel: nat)
    requires
        fuel > 0,
    ensures
        render_list(nodes, edges, rs, 0, fuel) == lines_text(nodes, edges, list_items(edges, rs, 0, fuel)),
        unindented(list_items(edges, rs, 0, fuel)) == rs,
    decreases rs.len(),
{
    lemma_list_items(nodes, edges, rs, 0, fuel);
    if rs.len() > 0 {
        law_unindented_lines(nodes, edges, rs.drop_last(), fuel);
        let a = list_items(edges, rs.drop_last(), 0, fuel);
        let b = node_items(edges, rs.last(), 0, fuel);
        lemma_node_items(nodes, edges, rs.last(), 0, fuel);
        lemma_unindented_concat(a, b);
        let rest = b.subrange(1, b.len() as int);
        assert(b =~= seq![(rs.last(), 0nat)] + rest);
        assert forall|k: int| 0 <= k < rest.len() implies (#[trigger] rest[k]).1 > 0 by {
            assert(rest[k] == b[k + 1]);
        }
        lemma_unindented_none(rest);
        lemma_unindented_concat(seq![(rs.last(), 0nat)], rest);
        assert(seq![(rs.last(), 0nat)].drop_last() =~= Seq::<(int, nat)>::empty());
        assert(unindented(seq![(rs.last(), 0nat)].drop_last()) =~= Seq::<int>::empty());
        assert(seq![(rs.last(), 0nat)].last() == (rs.last(), 0nat));
        assert(unindented(seq![(rs.last(), 0nat)]) =~= seq![rs.last()]);
        assert(unindented(list_items(edges, rs, 0, fuel)) =~= rs.drop_last() + seq![rs.last()]);
        assert(rs.drop_last() + seq![rs.last()] =~= rs);
    } else {
        assert(unindented(Seq::<(int, nat)>::empty()) =~= Seq::<int>::empty());
    }
}

/// Under each group header of the checklist, the lines without indentation
/// are exactly that group's roots, in order (and, by `law_root_grouping`,
/// every root is in exactly one group, the one of its priority).
pub proof fn law_printed_roots(nodes: Seq<TaskModel>, edges: Seq<(int, int)>)
    ensures
        forall|i: int|
            0 <= i < root_groups(nodes, edges).len() ==> {
                &&& render_list(nodes, edges, (#[trigger] root_groups(nodes, edges)[i]).1, 0, nodes.len())
                    == lines_text(
                    nodes,
                    edges,
                    list_items(edges, root_groups(nodes, edges)[i].1, 0, nodes.len()),
                )
                &&& unindented(list_items(edges, root_groups(nodes, edges)[i].1, 0, nodes.len()))
                    == root_groups(nodes, edges)[i].1
            },
{
    let gs = root_groups(nodes, edges);
    lemma_groups_upto(nodes, edges, 4);
    assert forall|i: int| 0 <= i < gs.len() implies {
        &&& render_list(nodes, edges, (#[trigger] gs[i]).1, 0, nodes.len()) == lines_text(
            nodes,
            edges,
            list_items(edges, gs[i].1, 0, nodes.len()),
        )
        &&& unindented(list_items(edges, gs[i].1, 0, nodes.len())) == gs[i].1
    } by {
        lemma_roots_in_range(nodes, edges, gs[i].0, nodes.len() as int);
        assert(gs[i].1.len() > 0);
        assert(0 <= gs[i].1[0] < nodes.len());
        law_unindented_lines(nodes, edges, gs[i].1, nodes.len());
    }
}

} // verus!
