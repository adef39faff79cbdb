use vstd::prelude::*;
use crate::entry::EntryModel;
use crate::task::{priority_name, TaskPriority, TaskState};

verus! {

/// `true` when `lit` occurs in `s` at position `p`.
pub open spec fn has_at(s: Seq<char>, p: int, lit: Seq<char>) -> bool {
    0 <= p && p + lit.len() <= s.len() && s.subrange(p, p + lit.len()) == lit
}

/// A character that ends a line: line feed, carriage return, vertical tab,
/// form feed, next line, line separator or paragraph separator.
pub open spec fn is_line_break(c: char) -> bool {
    c == '\n' || c == '\r' || c == '\u{0B}' || c == '\u{0C}' || c == '\u{85}' || c == '\u{2028}'
        || c == '\u{2029}'
}

/// Horizontal whitespace: the Unicode white space characters that do not end a line.
pub open spec fn is_inline_ws(c: char) -> bool {
    c == '\t' || c == ' ' || c == '\u{A0}' || c == '\u{1680}' || ('\u{2000}' <= c && c
        <= '\u{200A}') || c == '\u{202F}' || c == '\u{205F}' || c == '\u{3000}'
}

/// Length of the line terminator at `p` (`"\r\n"` counts as one, of length
/// 2; any other line-ending character has length 1); 0 where there is none.
pub open spec fn newline_len(s: Seq<char>, p: int) -> int {
    if 0 <= p < s.len() && s[p] == '\r' && p + 1 < s.len() && s[p + 1] == '\n' {
        2
    } else if 0 <= p < s.len() && is_line_break(s[p]) {
        1
    } else {
        0
    }
}

/// End of the run of horizontal whitespace that starts at `p`.
pub open spec fn inline_ws_end(s: Seq<char>, p: int) -> int
    decreases s.len() - p,
{
    if 0 <= p < s.len() && is_inline_ws(s[p]) {
        inline_ws_end(s, p + 1)
    } else {
        p
    }
}

/// End of the blank lines (only horizontal whitespace, then a line terminator) that start at `p`.
pub open spec fn filler_end(s: Seq<char>, p: int) -> int
    decreases s.len() - p,
    via filler_end_decreases
{
    let w = inline_ws_end(s, p);
    if 0 <= p <= s.len() && newline_len(s, w) > 0 {
        filler_end(s, w + newline_len(s, w))
    } else {
        p
    }
}

pub proof fn lemma_inline_ws_end(s: Seq<char>, p: int)
    requires
        0 <= p <= s.len(),
    ensures
        p <= inline_ws_end(s, p) <= s.len(),
    decreases s.len() - p,
{
    if p < s.len() && is_inline_ws(s[p]) {
        lemma_inline_ws_end(s, p + 1);
    }
}

#[via_fn]
proof fn filler_end_decreases(s: Seq<char>, p: int) {
    let w = inline_ws_end(s, p);
    if 0 <= p <= s.len() && newline_len(s, w) > 0 {
        lemma_inline_ws_end(s, p);
    }
}

pub proof fn lemma_filler_end(s: Seq<char>, p: int)
    requires
        0 <= p <= s.len(),
    ensures
        p <= filler_end(s, p) <= s.len(),
    decreases s.len() - p,
{
    let w = inline_ws_end(s, p);
    lemma_inline_ws_end(s, p);
    if newline_len(s, w) > 0 {
        lemma_filler_end(s, w + newline_len(s, w));
    }
}

/// End of a task name starting at `p`: the first `" /"` marker, line break or the end of input.
pub open spec fn name_end(s: Seq<char>, p: int) -> int
    decreases s.len() - p,
{
    if p < 0 || p >= s.len() || is_line_break(s[p]) || (s[p] == ' ' && p + 1 < s.len() && s[p
        + 1] == '/') {
        p
    } else {
        name_end(s, p + 1)
    }
}

/// End of the rest of the line starting at `p`: the first line break or the end of input.
pub open spec fn rest_end(s: Seq<char>, p: int) -> int
    decreases s.len() - p,
{
    if p < 0 || p >= s.len() || is_line_break(s[p]) {
        p
    } else {
        rest_end(s, p + 1)
    }
}

pub proof fn lemma_name_end(s: Seq<char>, p: int)
    requires
        0 <= p <= s.len(),
    ensures
        p <= name_end(s, p) <= s.len(),
    decreases s.len() - p,
{
    if !(p >= s.len() || is_line_break(s[p]) || (s[p] == ' ' && p + 1 < s.len() && s[p + 1]
        == '/')) {
        lemma_name_end(s, p + 1);
    }
}

pub proof fn lemma_rest_end(s: Seq<char>, p: int)
    requires
        0 <= p <= s.len(),
    ensures
        p <= rest_end(s, p) <= s.len(),
    decreases s.len() - p,
{
    if !(p >= s.len() || is_line_break(s[p])) {
        lemma_rest_end(s, p + 1);
    }
}

/// End of the run of spaces that starts at `p`.
pub open spec fn spaces_end(s: Seq<char>, p: int) -> int
    decreases s.len() - p,
{
    if 0 <= p < s.len() && s[p] == ' ' {
        spaces_end(s, p + 1)
    } else {
        p
    }
}

pub proof fn lemma_spaces_end(s: Seq<char>, p: int)
    requires
        0 <= p <= s.len(),
    ensures
        p <= spaces_end(s, p) <= s.len(),
    decreases s.len() - p,
{
    if p < s.len() && s[p] == ' ' {
        lemma_spaces_end(s, p + 1);
    }
}

/// `n` spaces.
pub open spec fn spaces(n: nat) -> Seq<char> {
    Seq::new(n, |i: int| ' ')
}

/// The task line at `p` indented by `depth` levels of four spaces:
/// `"- "`, the name, optionally `" /"`, any spaces and the parent's name, a line
/// terminator and any blank lines. Gives the name, the parent's name and
/// the position after the line.
pub open spec fn task_line(s: Seq<char>, p: int, depth: nat) -> Option<
    (Seq<char>, Option<Seq<char>>, int),
> {
    let q = p + 4 * depth;
    if !(has_at(s, p, spaces(4 * depth)) && has_at(s, q, seq!['-', ' '])) {
        None
    } else {
        let ne = name_end(s, q + 2);
        let name = s.subrange(q + 2, ne);
        let ps = spaces_end(s, ne + 2);
        let parent = if has_at(s, ne, seq![' ', '/']) {
            Some(s.subrange(ps, rest_end(s, ps)))
        } else {
            None
        };
        let e = if has_at(s, ne, seq![' ', '/']) {
            rest_end(s, ps)
        } else {
            ne
        };
        if newline_len(s, e) == 0 {
            None
        } else {
            Some((name, parent, filler_end(s, e + newline_len(s, e))))
        }
    }
}

pub proof fn lemma_task_line(s: Seq<char>, p: int, depth: nat)
    requires
        0 <= p <= s.len(),
        task_line(s, p, depth) is Some,
    ensures
        ({
            let line = task_line(s, p, depth)->0;
            p < line.2 <= s.len()
        }),
{
    let q = p + 4 * depth;
    lemma_name_end(s, q + 2);
    let ne = name_end(s, q + 2);
    let ps = spaces_end(s, ne + 2);
    if has_at(s, ne, seq![' ', '/']) {
        lemma_spaces_end(s, ne + 2);
        lemma_rest_end(s, ps);
    }
    let e = if has_at(s, ne, seq![' ', '/']) {
        rest_end(s, ps)
    } else {
        ne
    };
    lemma_filler_end(s, e + newline_len(s, e));
}

/// The entry read from a task line at the given depth of a subsection.
pub open spec fn line_entry(
    line: (Seq<char>, Option<Seq<char>>, int),
    depth: nat,
    pr: TaskPriority,
    st: TaskState,
) -> EntryModel {
    EntryModel {
        name: line.0,
        priority: if depth == 1 {
            Some(pr)
        } else {
            None
        },
        state: if depth == 1 {
            Some(st)
        } else {
            None
        },
        parent: line.1,
        children: Seq::empty(),
    }
}

/// Closes the innermost open sibling list: it becomes the children of the
/// last entry of the list one level up.
pub open spec fn close_level(stack: Seq<Seq<EntryModel>>) -> Seq<Seq<EntryModel>>
    recommends
        stack.len() >= 2,
{
    let done = stack.last();
    let rest = stack.drop_last();
    let up = rest.last();
    let last = up.last();
    rest.update(
        rest.len() - 1,
        up.update(
            up.len() - 1,
            EntryModel {
                name: last.name,
                priority: last.priority,
                state: last.state,
                parent: last.parent,
                children: done,
            },
        ),
    )
}

/// The indentation-stack reader of a subsection's task lines. `stack` holds
/// the open sibling lists, outermost first; its length is the depth at which
/// the next line is looked for. Gives the outermost entries and the position
/// after them.
pub open spec fn read_levels(
    s: Seq<char>,
    p: int,
    stack: Seq<Seq<EntryModel>>,
    pr: TaskPriority,
    st: TaskState,
) -> (Seq<EntryModel>, int)
    decreases s.len() - p, stack.len(),
    via read_levels_decreases
{
    if !(0 <= p <= s.len()) || stack.len() == 0 {
        (Seq::empty(), p)
    } else {
        let depth = stack.len();
        match task_line(s, p, depth) {
            Some(line) => read_levels(
                s,
                line.2,
                stack.update(depth - 1, stack[depth - 1].push(line_entry(line, depth, pr, st))).push(
                    Seq::empty(),
                ),
                pr,
                st,
            ),
            None => if depth == 1 {
                (stack[0], p)
            } else {
                read_levels(s, p, close_level(stack), pr, st)
            },
        }
    }
}

#[via_fn]
proof fn read_levels_decreases(
    s: Seq<char>,
    p: int,
    stack: Seq<Seq<EntryModel>>,
    pr: TaskPriority,
    st: TaskState,
) {
    if 0 <= p <= s.len() && stack.len() > 0 {
        if task_line(s, p, stack.len()) is Some {
            lemma_task_line(s, p, stack.len());
        }
    }
}

/// The task lines of one status subsection, read from `p`.
pub open spec fn tasks(s: Seq<char>, p: int, pr: TaskPriority, st: TaskState) -> (
    Seq<EntryModel>,
    int,
) {
    read_levels(s, p, seq![Seq::empty()], pr, st)
}

/// Position after `lit` and a line terminator at `p`, if both are there.
pub open spec fn header_end(s: Seq<char>, p: int, lit: Seq<char>) -> Option<int> {
    if has_at(s, p, lit) && newline_len(s, p + lit.len()) > 0 {
        Some(p + lit.len() + newline_len(s, p + lit.len()))
    } else {
        None
    }
}

/// The word that names a completion state in subsection headers.
pub open spec fn state_name(st: TaskState) -> Seq<char> {
    match st {
        TaskState::Completed => seq!['C', 'o', 'm', 'p', 'l', 'e', 't', 'e', 'd'],
        TaskState::WontDo => seq!['W', 'o', 'n', '\'', 't', ' ', 'D', 'o'],
        TaskState::Undone => seq!['U', 'n', 'd', 'o', 'n', 'e'],
    }
}

pub open spec fn status_header(st: TaskState) -> Seq<char> {
    seq!['#', '#', '#', ' ', ' ', ' ', ' ', ' '] + state_name(st)
}

pub open spec fn priority_header(pr: TaskPriority) -> Seq<char> {
    seq!['#', '#', ' '] + priority_name(pr)
}

/// An optional status subsection at `p`: its entries and the position after it.
pub open spec fn status_section(s: Seq<char>, p: int, pr: TaskPriority, st: TaskState) -> (
    Seq<EntryModel>,
    int,
) {
    match header_end(s, p, status_header(st)) {
        Some(q) => tasks(s, q, pr, st),
        None => (Seq::empty(), p),
    }
}

/// An optional priority section at `p` with its subsections Completed,
/// Won't Do and Undone, each optional, in that order.
pub open spec fn priority_section(s: Seq<char>, p: int, pr: TaskPriority) -> (
    Seq<EntryModel>,
    int,
) {
    match header_end(s, p, priority_header(pr)) {
        Some(q) => {
            let c = status_section(s, q, pr, TaskState::Completed);
            let w = status_section(s, c.1, pr, TaskState::WontDo);
            let u = status_section(s, w.1, pr, TaskState::Undone);
            (c.0 + w.0 + u.0, u.1)
        },
        None => (Seq::empty(), p),
    }
}

/// Position after the title line (`"# "`, the title, a line terminator and
/// any blank lines), if the input starts with one.
pub open spec fn title_end(s: Seq<char>) -> Option<int> {
    let te = rest_end(s, 2);
    if has_at(s, 0, seq!['#', ' ']) && newline_len(s, te) > 0 {
        Some(filler_end(s, te + newline_len(s, te)))
    } else {
        None
    }
}

/// The whole document: the title and all entries of the sections High,
/// Medium, Low and None in that order, or `None` where the input does not
/// follow the layout to its end.
pub open spec fn document(s: Seq<char>) -> Option<(Seq<char>, Seq<EntryModel>)> {
    match title_end(s) {
        None => None,
        Some(p0) => {
            let h = priority_section(s, p0, TaskPriority::High);
            let m = priority_section(s, h.1, TaskPriority::Medium);
            let l = priority_section(s, m.1, TaskPriority::Low);
            let n = priority_section(s, l.1, TaskPriority::NoPriority);
            if n.1 == s.len() {
                Some((s.subrange(2, rest_end(s, 2)), h.0 + m.0 + l.0 + n.0))
            } else {
                None
            }
        },
    }
}

/// Where reading stopped on input that `document` rejects: at the start
/// when the title marker is missing, at the end of the first line when it
/// has no line terminator, else where the text after the last section starts.
pub open spec fn stop_position(s: Seq<char>) -> int {
    match title_end(s) {
        None => if has_at(s, 0, seq!['#', ' ']) {
            rest_end(s, 2)
        } else {
            0
        },
        Some(p0) => {
            let h = priority_section(s, p0, TaskPriority::High);
            let m = priority_section(s, h.1, TaskPriority::Medium);
            let l = priority_section(s, m.1, TaskPriority::Low);
            priority_section(s, l.1, TaskPriority::NoPriority).1
        },
    }
}

} // verus!
