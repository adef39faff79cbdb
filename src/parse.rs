use vstd::prelude::*;
use crate::chars::{chars_of, string_of};
use crate::entry::{
    entries_view, lemma_entries_view, lemma_entries_view_push, opt_str_view, EntryModel, TaskEntry,
};
use crate::grammar::{
    close_level, document, filler_end, has_at, header_end, inline_ws_end, is_inline_ws,
    is_line_break, lemma_task_line, line_entry, name_end, newline_len, priority_header,
    priority_section, read_levels, rest_end, spaces, spaces_end, state_name, status_header,
    status_section, stop_position, task_line, tasks,
};
use crate::task::{TaskPriority, TaskState};

verus! {

/// Whether `lit` occurs in `s` at `p`.
fn lit_at(s: &Vec<char>, p: usize, lit: &Vec<char>) -> (r: bool)
    ensures
        r == has_at(s@, p as int, lit@),
{
    if lit.len() > s.len() || p > s.len() - lit.len() {
        return false;
    }
    let len = s.len();
    let mut i: usize = 0;
    while i < lit.len()
        invariant
            len == s@.len(),
            p + lit@.len() <= s@.len(),
            0 <= i <= lit@.len(),
            forall|k: int| 0 <= k < i ==> s@[p + k] == lit@[k],
        decreases lit@.len() - i,
    {
        if s[p + i] != lit[i] {
            assert(s@.subrange(p as int, p + lit@.len())[i as int] != lit@[i as int]);
            return false;
        }
        i += 1;
    }
    assert(s@.subrange(p as int, p + lit@.len()) =~= lit@);
    true
}

/// Whether `c` ends a line (see `is_line_break`).
fn line_break(c: char) -> (r: bool)
    ensures
        r == is_line_break(c),
{
    c == '\n' || c == '\r' || c == '\u{0B}' || c == '\u{0C}' || c == '\u{85}' || c == '\u{2028}'
        || c == '\u{2029}'
}

/// Whether `c` is horizontal whitespace (see `is_inline_ws`).
fn inline_ws(c: char) -> (r: bool)
    ensures
        r == is_inline_ws(c),
{
    c == '\t' || c == ' ' || c == '\u{A0}' || c == '\u{1680}' || ('\u{2000}' <= c && c
        <= '\u{200A}') || c == '\u{202F}' || c == '\u{205F}' || c == '\u{3000}'
}

/// Length of the line terminator at `p`, 0 where there is none.
fn newline_len_at(s: &Vec<char>, p: usize) -> (r: usize)
    ensures
        r as int == newline_len(s@, p as int),
{
    if p < s.len() && s[p] == '\r' && p + 1 < s.len() && s[p + 1] == '\n' {
        2
    } else if p < s.len() && line_break(s[p]) {
        1
    } else {
        0
    }
}

/// End of the horizontal whitespace from `p`.
fn inline_ws_end_at(s: &Vec<char>, p: usize) -> (r: usize)
    requires
        p <= s@.len(),
    ensures
        r as int == inline_ws_end(s@, p as int),
        p <= r <= s@.len(),
{
    let mut i = p;
    while i < s.len() && inline_ws(s[i])
        invariant
            p <= i <= s@.len(),
            inline_ws_end(s@, p as int) == inline_ws_end(s@, i as int),
        decreases s@.len() - i,
    {
        i += 1;
    }
    i
}

/// End of the blank lines from `p`.
fn filler_end_at(s: &Vec<char>, p: usize) -> (r: usize)
    requires
        p <= s@.len(),
    ensures
        r as int == filler_end(s@, p as int),
        p <= r <= s@.len(),
{
    let len = s.len();
    let mut i = p;
    loop
        invariant
            len == s@.len(),
            p <= i <= s@.len(),
            filler_end(s@, p as int) == filler_end(s@, i as int),
        decreases s@.len() - i,
    {
        let w = inline_ws_end_at(s, i);
        let n = newline_len_at(s, w);
        if n == 0 {
            return i;
        }
        assert(w + n <= len);
        i = w + n;
    }
}

/// End of the task name that starts at `p`.
fn name_end_at(s: &Vec<char>, p: usize) -> (r: usize)
    requires
        p <= s@.len(),
    ensures
        r as int == name_end(s@, p as int),
        p <= r <= s@.len(),
{
    let mut i = p;
    while i < s.len() && !(line_break(s[i]) || (s[i] == ' ' && i + 1 < s.len() && s[i + 1] == '/'))
        invariant
            p <= i <= s@.len(),
            name_end(s@, p as int) == name_end(s@, i as int),
        decreases s@.len() - i,
    {
        i += 1;
    }
    i
}

/// End of the spaces from `p`.
fn spaces_end_at(s: &Vec<char>, p: usize) -> (r: usize)
    requires
        p <= s@.len(),
    ensures
        r as int == spaces_end(s@, p as int),
        p <= r <= s@.len(),
{
    let mut i = p;
    while i < s.len() && s[i] == ' '
        invariant
            p <= i <= s@.len(),
            spaces_end(s@, p as int) == spaces_end(s@, i as int),
        decreases s@.len() - i,
    {
        i += 1;
    }
    i
}

/// End of the line that continues at `p`.
fn rest_end_at(s: &Vec<char>, p: usize) -> (r: usize)
    requires
        p <= s@.len(),
    ensures
        r as int == rest_end(s@, p as int),
        p <= r <= s@.len(),
{
    let mut i = p;
    while i < s.len() && !line_break(s[i])
        invariant
            p <= i <= s@.len(),
            rest_end(s@, p as int) == rest_end(s@, i as int),
        decreases s@.len() - i,
    {
        i += 1;
    }
    i
}

/// The characters of `s` from `a` up to `b`, as a string.
fn text_between(s: &Vec<char>, a: usize, b: usize) -> (r: String)
    requires
        a <= b <= s@.len(),
    ensures
        r@ == s@.subrange(a as int, b as int),
{
    let mut v: Vec<char> = Vec::new();
    let mut i = a;
    while i < b
        invariant
            a <= i <= b <= s@.len(),
            v@ == s@.subrange(a as int, i as int),
        decreases b - i,
    {
        v.push(s[i]);
        i += 1;
        assert(v@ =~= s@.subrange(a as int, i as int));
    }
    string_of(&v)
}

/// Whether `depth` levels of four-space indentation start at `p`.
fn indent_at(s: &Vec<char>, p: usize, depth: usize) -> (r: bool)
    requires
        p <= s@.len(),
    ensures
        r == has_at(s@, p as int, spaces(4 * depth as nat)),
{
    if depth > (s.len() - p) / 4 {
        return false;
    }
    let len = s.len();
    let n = 4 * depth;
    let mut i: usize = 0;
    while i < n
        invariant
            len == s@.len(),
            n == 4 * depth,
            p + n <= s@.len(),
            0 <= i <= n,
            forall|k: int| p <= k < p + i ==> s@[k] == ' ',
        decreases n - i,
    {
        if s[p + i] != ' ' {
            assert(s@.subrange(p as int, p + n)[i as int] != spaces(n as nat)[i as int]);
            return false;
        }
        i += 1;
    }
    assert(s@.subrange(p as int, p + n) =~= spaces(n as nat));
    true
}

/// Reads the task line at `p` at the given depth (see `task_line`).
fn task_line_at(s: &Vec<char>, p: usize, depth: usize) -> (r: Option<(String, Option<String>, usize)>)
    requires
        p <= s@.len(),
    ensures
        match task_line(s@, p as int, depth as nat) {
            None => r is None,
            Some(line) => match r {
                Some((name, parent, next)) => name@ == line.0 && opt_str_view(parent) == line.1
                    && next as int == line.2,
                None => false,
            },
        },
{
    if !indent_at(s, p, depth) {
        return None;
    }
    let len = s.len();
    assert(p + spaces(4 * depth as nat).len() <= len);
    let q = p + 4 * depth;
    proof {
        reveal_strlit("- ");
        reveal_strlit(" /");
    }
    let dash = chars_of("- ");
    assert(dash@ =~= seq!['-', ' ']);
    if !lit_at(s, q, &dash) {
        return None;
    }
    let ne = name_end_at(s, q + 2);
    let name = text_between(s, q + 2, ne);
    let marker = chars_of(" /");
    assert(marker@ =~= seq![' ', '/']);
    let (parent, e) = if lit_at(s, ne, &marker) {
        let ps = spaces_end_at(s, ne + 2);
        let pe = rest_end_at(s, ps);
        (Some(text_between(s, ps, pe)), pe)
    } else {
        (None, ne)
    };
    let n = newline_len_at(s, e);
    if n == 0 {
        return None;
    }
    let next = filler_end_at(s, e + n);
    Some((name, parent, next))
}

pub open spec fn stack_view(stack: Seq<Vec<TaskEntry>>) -> Seq<Seq<EntryModel>> {
    Seq::new(stack.len(), |k: int| entries_view(stack[k]@))
}

/// Reads the task lines of one status subsection with an explicit stack of
/// open sibling lists.
fn read_tasks(s: &Vec<char>, p: usize, pr: TaskPriority, st: TaskState) -> (r: (
    Vec<TaskEntry>,
    usize,
))
    requires
        p <= s@.len(),
    ensures
        entries_view(r.0@) == tasks(s@, p as int, pr, st).0,
        r.1 as int == tasks(s@, p as int, pr, st).1,
        p <= r.1 <= s@.len(),
{
    let mut stack: Vec<Vec<TaskEntry>> = Vec::new();
    stack.push(Vec::new());
    let mut pos = p;
    proof {
        assert(stack@[0]@.len() == 0);
        assert(entries_view(stack@[0]@) =~= Seq::<EntryModel>::empty());
        assert(stack_view(stack@) =~= seq![Seq::<EntryModel>::empty()]);
    }
    loop
        invariant
            p <= pos <= s@.len(),
            stack@.len() >= 1,
            forall|k: int| 0 <= k < stack@.len() - 1 ==> (#[trigger] stack@[k])@.len() > 0,
            read_levels(s@, pos as int, stack_view(stack@), pr, st) == tasks(s@, p as int, pr, st),
        decreases s@.len() - pos, stack@.len(),
    {
        let depth = stack.len();
        let ghost sv = stack_view(stack@);
        match task_line_at(s, pos, depth) {
            Some((name, parent, next)) => {
                let ghost line = task_line(s@, pos as int, depth as nat)->0;
                proof {
                    lemma_task_line(s@, pos as int, depth as nat);
                }
                let entry = TaskEntry {
                    name,
                    priority: if depth == 1 {
                        Some(pr)
                    } else {
                        None
                    },
                    state: if depth == 1 {
                        Some(st)
                    } else {
                        None
                    },
                    parent,
                    children: Vec::new(),
                };
                let ghost old_stack = stack@;
                let mut top = stack.pop().unwrap();
                let ghost old_top = top@;
                top.push(entry);
                stack.push(top);
                stack.push(Vec::new());
                pos = next;
                proof {
                    assert(stack@.drop_last() =~= old_stack.drop_last().push(top));
                    assert(stack@.len() == depth + 1);
                    assert(old_top == old_stack[depth - 1]@);
                    assert(entries_view(stack@[depth as int]@) =~= Seq::<EntryModel>::empty());
                    assert(entry@.children =~= Seq::<EntryModel>::empty());
                    assert(entry@ == line_entry(line, depth as nat, pr, st));
                    lemma_entries_view_push(old_top, entry);
                    assert(top@ == old_top.push(entry));
                    assert(stack_view(stack@) =~= sv.update(
                        depth - 1,
                        sv[depth - 1].push(line_entry(line, depth as nat, pr, st)),
                    ).push(Seq::empty()));
                }
            },
            None => {
                let ghost old_stack = stack@;
                let done = stack.pop().unwrap();
                if stack.len() == 0 {
                    assert(sv[0] == entries_view(done@));
                    return (done, pos);
                }
                let mut up = stack.pop().unwrap();
                let ghost old_up = up@;
                let mut last = up.pop().unwrap();
                last.children = done;
                up.push(last);
                stack.push(up);
                proof {
                    let cl = close_level(sv);
                    assert(last.children@ == done@);
                    lemma_entries_view(old_up);
                    lemma_entries_view(up@);
                    assert(stack@ =~= old_stack.drop_last().drop_last().push(up));
                    assert(old_up == old_stack[depth - 2]@);
                    assert(entries_view(up@) =~= sv[depth - 2].update(
                        sv[depth - 2].len() - 1,
                        last@,
                    ));
                    assert(stack_view(stack@) =~= cl);
                }
            },
        }
    }
}

} // verus!

verus! {

/// The characters of `a` followed by those of `b`.
fn joined(a: &str, b: &str) -> (r: Vec<char>)
    ensures
        r@ == a@ + b@,
{
    let mut r = chars_of(a);
    let tail = chars_of(b);
    let ghost start = r@;
    let mut i: usize = 0;
    while i < tail.len()
        invariant
            0 <= i <= tail@.len(),
            r@ == start + tail@.subrange(0, i as int),
        decreases tail@.len() - i,
    {
        r.push(tail[i]);
        i += 1;
        assert(r@ =~= start + tail@.subrange(0, i as int));
    }
    assert(tail@.subrange(0, tail@.len() as int) =~= tail@);
    r
}

/// Position after the header line `lit` at `p`, if it is there.
fn header_end_at(s: &Vec<char>, p: usize, lit: &Vec<char>) -> (r: Option<usize>)
    requires
        p <= s@.len(),
    ensures
        match header_end(s@, p as int, lit@) {
            None => r is None,
            Some(q) => match r {
                Some(x) => x as int == q && p <= x <= s@.len(),
                None => false,
            },
        },
{
    let len = s.len();
    if !lit_at(s, p, lit) {
        return None;
    }
    let e = p + lit.len();
    assert(newline_len(s@, e as int) <= len - e);
    let n = newline_len_at(s, e);
    if n == 0 {
        None
    } else {
        Some(e + n)
    }
}

/// The word of a completion state in subsection headers.
fn state_word(st: TaskState) -> (r: &'static str)
    ensures
        r@ == state_name(st),
{
    match st {
        TaskState::Completed => {
            proof {
                reveal_strlit("Completed");
            }
            "Completed"
        },
        TaskState::WontDo => {
            proof {
                reveal_strlit("Won't Do");
            }
            "Won't Do"
        },
        TaskState::Undone => {
            proof {
                reveal_strlit("Undone");
            }
            "Undone"
        },
    }
}

/// Reads an optional status subsection (see `status_section`).
fn status_section_at(s: &Vec<char>, p: usize, pr: TaskPriority, st: TaskState) -> (r: (
    Vec<TaskEntry>,
    usize,
))
    requires
        p <= s@.len(),
    ensures
        entries_view(r.0@) == status_section(s@, p as int, pr, st).0,
        r.1 as int == status_section(s@, p as int, pr, st).1,
        p <= r.1 <= s@.len(),
{
    proof {
        reveal_strlit("###     ");
    }
    let lit = joined("###     ", state_word(st));
    assert(lit@ =~= status_header(st));
    let h = header_end_at(s, p, &lit);
    assert(h is None <==> header_end(s@, p as int, status_header(st)) is None);
    match h {
        Some(q) => {
            assert(header_end(s@, p as int, status_header(st)) == Some(q as int));
            read_tasks(s, q, pr, st)
        },
        None => {
            let v: Vec<TaskEntry> = Vec::new();
            proof {
                lemma_entries_view(v@);
                assert(entries_view(v@) =~= Seq::<EntryModel>::empty());
            }
            (v, p)
        },
    }
}

/// Appends the entries of `b` to `a`.
fn append_entries(a: &mut Vec<TaskEntry>, b: Vec<TaskEntry>)
    ensures
        entries_view(final(a)@) == entries_view(old(a)@) + entries_view(b@),
{
    let mut b = b;
    let ghost a0 = a@;
    let ghost b0 = b@;
    a.append(&mut b);
    proof {
        lemma_entries_view(a@);
        lemma_entries_view(a0);
        lemma_entries_view(b0);
        assert(entries_view(a@) =~= entries_view(a0) + entries_view(b0));
    }
}

/// Reads an optional priority section (see `priority_section`).
fn priority_section_at(s: &Vec<char>, p: usize, pr: TaskPriority) -> (r: (Vec<TaskEntry>, usize))
    requires
        p <= s@.len(),
    ensures
        entries_view(r.0@) == priority_section(s@, p as int, pr).0,
        r.1 as int == priority_section(s@, p as int, pr).1,
        p <= r.1 <= s@.len(),
{
    proof {
        reveal_strlit("## ");
    }
    let lit = joined("## ", pr.ticktick_ident());
    assert(lit@ =~= priority_header(pr));
    let h = header_end_at(s, p, &lit);
    assert(h is None <==> header_end(s@, p as int, priority_header(pr)) is None);
    match h {
        Some(q) => {
            assert(header_end(s@, p as int, priority_header(pr)) == Some(q as int));
            let (mut all, q1) = status_section_at(s, q, pr, TaskState::Completed);
            let (w, q2) = status_section_at(s, q1, pr, TaskState::WontDo);
            let (u, q3) = status_section_at(s, q2, pr, TaskState::Undone);
            append_entries(&mut all, w);
            append_entries(&mut all, u);
            (all, q3)
        },
        None => {
            let v: Vec<TaskEntry> = Vec::new();
            proof {
                lemma_entries_view(v@);
                assert(entries_view(v@) =~= Seq::<EntryModel>::empty());
            }
            (v, p)
        },
    }
}

/// Reads a whole summary export: its title and the entries of all its
/// sections in document order. `None` exactly where the text does not
/// follow the export's layout to its end; the error is where reading stopped.
pub fn parse_document(input: &str) -> (r: Result<(String, Vec<TaskEntry>), usize>)
    ensures
        match document(input@) {
            None => r == Err::<(String, Vec<TaskEntry>), usize>(stop_position(input@) as usize),
            Some((title, entries)) => match r {
                Ok((t, es)) => t@ == title && entries_view(es@) == entries,
                Err(_) => false,
            },
        },
{
    let text = chars_of(input);
    let s = &text;
    proof {
        reveal_strlit("# ");
    }
    let mark = chars_of("# ");
    assert(mark@ =~= seq!['#', ' ']);
    if !lit_at(s, 0, &mark) {
        return Err(0);
    }
    let len = s.len();
    let te = rest_end_at(s, 2);
    let n = newline_len_at(s, te);
    if n == 0 {
        return Err(te);
    }
    assert(te + n <= len);
    let p0 = filler_end_at(s, te + n);
    let (mut all, after_high) = priority_section_at(s, p0, TaskPriority::High);
    let (m, after_medium) = priority_section_at(s, after_high, TaskPriority::Medium);
    let (l, after_low) = priority_section_at(s, after_medium, TaskPriority::Low);
    let (x, end) = priority_section_at(s, after_low, TaskPriority::NoPriority);
    if end != s.len() {
        return Err(end);
    }
    append_entries(&mut all, m);
    append_entries(&mut all, l);
    append_entries(&mut all, x);
    Ok((text_between(s, 2, te), all))
}

} // verus!
