use vstd::prelude::*;

verus! {

/// One to-do item: a numeric identifier, a title, and a completion flag.
pub struct Task {
    pub id: u32,
    pub title: String,
    pub completed: bool,
}

/// The mathematical model of a task: the identifier, the title's
/// characters, and the completion flag.
pub ghost struct TaskView {
    pub id: u32,
    pub title: Seq<char>,
    pub completed: bool,
}

impl View for Task {
    type V = TaskView;

    open spec fn view(&self) -> TaskView {
        (TaskView { id: self.id, title: self.title@, completed: self.completed })
    }
}

impl Task {
    /// A copy of the task with the same id, title and flag.
    pub fn duplicate(&self) -> (r: Task)
        ensures
            r@ == self@,
    {
        Task { id: self.id, title: self.title.clone(), completed: self.completed }
    }
}

/// The model of a whole store: the tasks in order, as task views.
pub open spec fn store_view(ts: Seq<Task>) -> Seq<TaskView> {
    ts.map_values(|t: Task| t@)
}

/// Whether some task in the store carries the given id.
pub open spec fn contains_id(s: Seq<TaskView>, id: u32) -> bool {
    exists|k: int| 0 <= k < s.len() && s[k].id == id
}

} // verus!
