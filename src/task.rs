use vstd::prelude::*;

verus! {

/// Priority of a task; the declaration order is the report order.
#[derive(Clone, Copy, Debug, PartialEq, Eq, Structural, PartialOrd, Ord, Hash)]
pub enum TaskPriority {
    High,
    Medium,
    Low,
    NoPriority,
}

/// Completion state of a task.
#[derive(Clone, Copy, Debug, PartialEq, Eq, Structural, Hash)]
pub enum TaskState {
    Undone,
    Completed,
    WontDo,
}

/// Position of a priority in the fixed order High, Medium, Low, None.
pub open spec fn priority_rank(p: TaskPriority) -> nat {
    match p {
        TaskPriority::High => 0,
        TaskPriority::Medium => 1,
        TaskPriority::Low => 2,
        TaskPriority::NoPriority => 3,
    }
}

/// The word that names a priority in section headers.
pub open spec fn priority_name(p: TaskPriority) -> Seq<char> {
    match p {
        TaskPriority::High => seq!['H', 'i', 'g', 'h'],
        TaskPriority::Medium => seq!['M', 'e', 'd', 'i', 'u', 'm'],
        TaskPriority::Low => seq!['L', 'o', 'w'],
        TaskPriority::NoPriority => seq!['N', 'o', 'n', 'e'],
    }
}

impl TaskPriority {
    /// The word that names this priority in the export's section headers.
    pub fn ticktick_ident(&self) -> (r: &'static str)
        ensures
            r@ == priority_name(*self),
    {
        match self {
            TaskPriority::High => {
                proof {
                    reveal_strlit("High");
                }
                "High"
            },
            TaskPriority::Medium => {
                proof {
                    reveal_strlit("Medium");
                }
                "Medium"
            },
            TaskPriority::Low => {
                proof {
                    reveal_strlit("Low");
                }
                "Low"
            },
            TaskPriority::NoPriority => {
                proof {
                    reveal_strlit("None");
                }
                "None"
            },
        }
    }
}

/// A node of the task graph.
#[derive(Clone, Debug)]
pub struct Task {
    pub name: String,
    pub priority: Option<TaskPriority>,
    pub state: Option<TaskState>,
}

/// What a task is, as plain values.
pub struct TaskModel {
    pub name: Seq<char>,
    pub priority: Option<TaskPriority>,
    pub state: Option<TaskState>,
}

impl View for Task {
    type V = TaskModel;

    open spec fn view(&self) -> TaskModel {
        TaskModel { name: self.name@, priority: self.priority, state: self.state }
    }
}

/// A node made only because another entry named it as its parent.
pub open spec fn placeholder(name: Seq<char>) -> TaskModel {
    TaskModel { name, priority: None, state: None }
}

} // verus!
