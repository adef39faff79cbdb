use vstd::prelude::*;
use crate::task::{TaskPriority, TaskState};

verus! {

/// One parsed task line with the lines nested under it.
#[derive(Debug)]
pub struct TaskEntry {
    pub name: String,
    /// Set only on entries at the outermost level of a status subsection.
    pub priority: Option<TaskPriority>,
    /// Set only on entries at the outermost level of a status subsection.
    pub state: Option<TaskState>,
    /// The name written after a `" /"` marker on the line, without the
    /// spaces that follow the marker (`Y / X` and `Y /X` both name `X`).
    pub parent: Option<String>,
    pub children: Vec<TaskEntry>,
}

/// What an entry is, as plain values.
pub struct EntryModel {
    pub name: Seq<char>,
    pub priority: Option<TaskPriority>,
    pub state: Option<TaskState>,
    pub parent: Option<Seq<char>>,
    pub children: Seq<EntryModel>,
}

pub open spec fn opt_str_view(o: Option<String>) -> Option<Seq<char>> {
    match o {
        Some(s) => Some(s@),
        None => None,
    }
}

/// The views of a sequence of entries, in order.
pub open spec fn entries_view(v: Seq<TaskEntry>) -> Seq<EntryModel>
    decreases v,
{
    if v.len() == 0 {
        Seq::empty()
    } else {
        entries_view(v.drop_last()).push(v.last().view())
    }
}

impl View for TaskEntry {
    type V = EntryModel;

    open spec fn view(&self) -> EntryModel
        decreases self,
    {
        EntryModel {
            name: self.name@,
            priority: self.priority,
            state: self.state,
            parent: opt_str_view(self.parent),
            children: entries_view(self.children@),
        }
    }
}

/// The view of each entry stands at its own index.
pub proof fn lemma_entries_view(v: Seq<TaskEntry>)
    ensures
        entries_view(v).len() == v.len(),
        forall|i: int| 0 <= i < v.len() ==> #[trigger] entries_view(v)[i] == v[i]@,
    decreases v.len(),
{
    if v.len() > 0 {
        lemma_entries_view(v.drop_last());
        assert(entries_view(v) == entries_view(v.drop_last()).push(v.last().view()));
    } else {
        assert(entries_view(v) == Seq::<EntryModel>::empty());
    }
}

/// Appending an entry appends its view.
pub proof fn lemma_entries_view_push(v: Seq<TaskEntry>, e: TaskEntry)
    ensures
        entries_view(v.push(e)) == entries_view(v).push(e@),
{
    assert(v.push(e).drop_last() =~= v);
}

} // verus!
