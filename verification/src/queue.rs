//! One worker's double-ended task queue.

use std::collections::VecDeque;
use vstd::prelude::*;

verus! {

/// A double-ended sequence of tasks.
///
/// The front holds the oldest task, which is the end a thief takes from. The
/// back holds the newest task, which is the end the owner takes from.
pub struct WorkQueue<T> {
    tasks: VecDeque<T>,
}

impl<T> View for WorkQueue<T> {
    type V = Seq<T>;

    closed spec fn view(&self) -> Seq<T> {
        self.tasks@
    }
}

impl<T> WorkQueue<T> {
    /// An empty queue.
    pub fn new() -> (queue: Self)
        ensures
            queue@ == Seq::<T>::empty(),
    {
        WorkQueue { tasks: VecDeque::new() }
    }

    /// The number of tasks waiting in the queue.
    pub fn len(&self) -> (n: usize)
        ensures
            n == self@.len(),
    {
        self.tasks.len()
    }

    /// Whether no task is waiting in the queue.
    pub fn is_empty(&self) -> (empty: bool)
        ensures
            empty == (self@.len() == 0),
    {
        self.tasks.len() == 0
    }

    /// Appends a task at the back, the owner's end.
    pub fn push_back(&mut self, task: T)
        ensures
            final(self)@ == old(self)@.push(task),
    {
        self.tasks.push_back(task);
    }

    /// Removes the newest task, if there is one.
    pub fn pop_back(&mut self) -> (task: Option<T>)
        ensures
            old(self)@.len() == 0 ==> task is None && final(self)@ == old(self)@,
            old(self)@.len() > 0 ==> task == Some(old(self)@.last()) && final(self)@ == old(
                self,
            )@.drop_last(),
    {
        self.tasks.pop_back()
    }

    /// Removes the oldest task, if there is one.
    pub fn pop_front(&mut self) -> (task: Option<T>)
        ensures
            old(self)@.len() == 0 ==> task is None && final(self)@ == old(self)@,
            old(self)@.len() > 0 ==> task == Some(old(self)@.first()) && final(self)@ == old(
                self,
            )@.drop_first(),
    {
        self.tasks.pop_front()
    }
}

} // verus!
