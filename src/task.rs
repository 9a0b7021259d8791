use vstd::prelude::*;

verus! {

/// A single to-do item: a completion flag and a free-text description.
pub struct Task {
    pub done: bool,
    pub desc: String,
}

/// The mathematical value of a [`Task`].
pub ghost struct TaskView {
    pub done: bool,
    pub desc: Seq<char>,
}

impl View for Task {
    type V = TaskView;

    open spec fn view(&self) -> TaskView {
        TaskView { done: self.done, desc: self.desc@ }
    }
}

impl Task {
    /// A task that is not done yet, with the given description.
    pub fn new(desc: String) -> (r: Task)
        ensures
            r@ == (TaskView { done: false, desc: desc@ }),
    {
        Task { done: false, desc }
    }
}

/// A named, ordered group of tasks.
pub struct Todo {
    pub title: String,
    pub tasks: Vec<Task>,
}

/// The mathematical value of a [`Todo`].
pub ghost struct TodoView {
    pub title: Seq<char>,
    pub tasks: Seq<TaskView>,
}

/// The values of a sequence of tasks.
pub open spec fn tasks_view(ts: Seq<Task>) -> Seq<TaskView> {
    ts.map_values(|t: Task| t@)
}

impl View for Todo {
    type V = TodoView;

    open spec fn view(&self) -> TodoView {
        TodoView { title: self.title@, tasks: tasks_view(self.tasks@) }
    }
}

impl Todo {
    /// An empty list with the given title.
    pub fn new(title: String) -> (r: Todo)
        ensures
            r@ == (TodoView { title: title@, tasks: Seq::empty() }),
    {
        let r = Todo { title, tasks: Vec::new() };
        assert(r@.tasks =~= Seq::<TaskView>::empty());
        r
    }
}

} // verus!
