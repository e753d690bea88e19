//! Tasks and their priorities.

use vstd::prelude::*;
use vstd::string::*;

verus! {

/// A task with an id, a title and whether it is done.
#[derive(Debug)]
pub struct Task {
    /// The task's id.
    pub id: u32,
    /// What the task is.
    pub title: String,
    /// Whether the task is done.
    pub completed: bool,
}

impl Clone for Task {
    fn clone(&self) -> (c: Self)
        ensures
            c.id == self.id,
            c.title@ == self.title@,
            c.completed == self.completed,
    {
        Task { id: self.id, title: self.title.clone(), completed: self.completed }
    }
}

impl Task {
    /// A task that is not done yet.
    pub fn new(id: u32, title: String) -> (t: Task)
        ensures
            t.id == id,
            t.title@ == title@,
            !t.completed,
    {
        Task { id, title, completed: false }
    }

    /// Marks the task done; marking it again changes nothing.
    pub fn mark_done(&mut self)
        ensures
            final(self).completed,
            final(self).id == old(self).id,
            final(self).title@ == old(self).title@,
    {
        self.completed = true;
    }
}

/// How urgent a task is.
#[derive(Debug, PartialEq, Eq, Structural, Clone)]
pub enum Priority {
    Low,
    Medium,
    High,
}

/// The titles of the sample tasks, in order.
pub open spec fn sample_titles() -> Seq<Seq<char>> {
    seq!["学习 Rust 模块系统"@, "理解 Package 与 Crate 区别"@, "掌握 pub 可见性修饰符"@, "练习 use 路径导入"@]
}

/// Four sample tasks, with ids 1 to 4, none done.
pub fn create_sample_tasks() -> (tasks: Vec<Task>)
    ensures
        tasks@.len() == 4,
        forall|i: int|
            0 <= i < 4 ==> (#[trigger] tasks@[i]).id == i + 1 && tasks@[i].title@ == sample_titles()[i]
                && !tasks@[i].completed,
{
    let tasks = vec![
        Task::new(1, String::from_str("学习 Rust 模块系统")),
        Task::new(2, String::from_str("理解 Package 与 Crate 区别")),
        Task::new(3, String::from_str("掌握 pub 可见性修饰符")),
        Task::new(4, String::from_str("练习 use 路径导入")),
    ];
    tasks
}

} // verus!
