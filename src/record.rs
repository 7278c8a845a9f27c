use vstd::prelude::*;

verus! {

/// What a task is: its id, its text, when it was created (seconds since the Unix
/// epoch) and whether it is done.
pub ghost struct Task {
    pub id: nat,
    pub text: Seq<char>,
    pub created: nat,
    pub done: bool,
}

/// One task as it is stored.
#[derive(Debug)]
pub struct TodoItem {
    pub index: u32,
    pub task: String,
    pub start: u64,
    pub is_done: bool,
}

impl View for TodoItem {
    type V = Task;

    open spec fn view(&self) -> Task {
        Task { id: self.index as nat, text: self.task@, created: self.start as nat, done: self.is_done }
    }
}

impl TodoItem {
    /// An open task with id 0, no text and creation time 0.
    pub fn new() -> (r: TodoItem)
        ensures
            r@ == (Task { id: 0, text: Seq::empty(), created: 0, done: false }),
    {
        TodoItem { index: 0, task: String::new(), start: 0, is_done: false }
    }

    /// A task made of the given parts.
    pub fn from(ix: u32, tsk: String, time: u64, done: bool) -> (r: TodoItem)
        ensures
            r@ == (Task { id: ix as nat, text: tsk@, created: time as nat, done: done }),
    {
        TodoItem { index: ix, task: tsk, start: time, is_done: done }
    }

    /// Replaces every part of the task.
    pub fn _set(&mut self, ix: u32, tsk: String, time: u64, done: bool)
        ensures
            final(self)@ == (Task { id: ix as nat, text: tsk@, created: time as nat, done: done }),
    {
        self.index = ix;
        self.task = tsk;
        self.start = time;
        self.is_done = done;
    }
}

} // verus!
