//! One account's task record: an in-progress list and a completed list of
//! task texts, mutated through index-based operations.
//!
//! Removal uses a swap-remove policy: the removed slot is filled by the
//! former last element, so order is deliberately not preserved by removals
//! in the middle of the list.

use vstd::prelude::*;

verus! {

/// The ways a mutating operation can fail.
#[derive(Clone, Copy, Debug, PartialEq, Eq, Structural)]
pub enum TodoError {
    /// A mutating operation other than adding a task was invoked for an
    /// account that has no record yet.
    AccountNotFound,
    /// An index-based operation was given an index not less than the length
    /// of the in-progress list.
    IndexOutOfRange,
}

/// Mathematical model of one account's record: the two task lists as
/// sequences.
#[verifier::ext_equal]
pub ghost struct TasksModel {
    pub in_progress: Seq<String>,
    pub completed: Seq<String>,
}

/// One account's task record.
pub struct Tasks {
    pub in_progress: Vec<String>,
    pub completed: Vec<String>,
}

/// A read-only projection of one account's record, handed out by reads.
#[derive(Debug)]
pub struct TaskView {
    pub in_progress: Vec<String>,
    pub completed: Vec<String>,
}

impl View for Tasks {
    type V = TasksModel;

    open spec fn view(&self) -> TasksModel {
        TasksModel { in_progress: self.in_progress@, completed: self.completed@ }
    }
}

impl View for TaskView {
    type V = TasksModel;

    open spec fn view(&self) -> TasksModel {
        TasksModel { in_progress: self.in_progress@, completed: self.completed@ }
    }
}

/// The record of an account that has nothing stored yet: both lists empty.
pub open spec fn empty_model() -> TasksModel {
    TasksModel { in_progress: Seq::empty(), completed: Seq::empty() }
}

/// The in-progress list after a swap-remove at index `i`: the last element
/// moves into slot `i` and the list shrinks by one.
pub open spec fn swap_removed(s: Seq<String>, i: int) -> Seq<String> {
    s.update(i, s.last()).drop_last()
}

/// The record after appending `todo` to the in-progress list.
pub open spec fn tasks_add(t: TasksModel, todo: String) -> TasksModel {
    TasksModel { in_progress: t.in_progress.push(todo), completed: t.completed }
}

/// The record after replacing the in-progress element at `i` with `todo`.
pub open spec fn tasks_update(t: TasksModel, i: int, todo: String) -> TasksModel {
    TasksModel { in_progress: t.in_progress.update(i, todo), completed: t.completed }
}

/// The record after swap-removing the in-progress element at `i`.
pub open spec fn tasks_delete(t: TasksModel, i: int) -> TasksModel {
    TasksModel { in_progress: swap_removed(t.in_progress, i), completed: t.completed }
}

/// The record after moving the in-progress element at `i` to the end of the
/// completed list.
pub open spec fn tasks_complete(t: TasksModel, i: int) -> TasksModel {
    TasksModel {
        in_progress: swap_removed(t.in_progress, i),
        completed: t.completed.push(t.in_progress[i]),
    }
}

/// The record after emptying the completed list.
pub open spec fn tasks_clear(t: TasksModel) -> TasksModel {
    TasksModel { in_progress: t.in_progress, completed: Seq::empty() }
}

/// Copies a list of task texts element by element.
pub(crate) fn clone_texts(v: &Vec<String>) -> (r: Vec<String>)
    ensures
        r@ == v@,
{
    let mut r: Vec<String> = Vec::new();
    let mut i: usize = 0;
    while i < v.len()
        invariant
            i <= v@.len(),
            r@.len() == i,
            forall|j: int| 0 <= j < i ==> r@[j] == v@[j],
        decreases v@.len() - i,
    {
        r.push(v[i].clone());
        i = i + 1;
    }
    proof {
        assert(r@ =~= v@);
    }
    r
}

impl Tasks {
    /// A fresh record with both lists empty.
    pub fn new() -> (r: Tasks)
        ensures
            r@ == empty_model(),
    {
        Tasks { in_progress: Vec::new(), completed: Vec::new() }
    }

    /// Appends `todo` to the end of the in-progress list. Never fails.
    pub fn add(&mut self, todo: String)
        ensures
            final(self)@ == tasks_add(old(self)@, todo),
    {
        self.in_progress.push(todo);
    }

    /// Replaces the in-progress element at `index` with `todo` and returns
    /// the prior value; rejects an index not less than the list's length.
    pub fn update(&mut self, index: usize, todo: String) -> (r: Result<String, TodoError>)
        ensures
            index < old(self)@.in_progress.len() ==> r == Ok::<String, TodoError>(
                old(self)@.in_progress[index as int],
            ) && final(self)@ == tasks_update(old(self)@, index as int, todo),
            index >= old(self)@.in_progress.len() ==> r == Err::<String, TodoError>(
                TodoError::IndexOutOfRange,
            ) && *final(self) == *old(self),
    {
        if index < self.in_progress.len() {
            let prior = self.in_progress[index].clone();
            self.in_progress.set(index, todo);
            Ok(prior)
        } else {
            Err(TodoError::IndexOutOfRange)
        }
    }

    /// Removes the in-progress element at `index` by swap-remove and returns
    /// it; rejects an index not less than the list's length.
    pub fn delete(&mut self, index: usize) -> (r: Result<String, TodoError>)
        ensures
            index < old(self)@.in_progress.len() ==> r == Ok::<String, TodoError>(
                old(self)@.in_progress[index as int],
            ) && final(self)@ == tasks_delete(old(self)@, index as int),
            index >= old(self)@.in_progress.len() ==> r == Err::<String, TodoError>(
                TodoError::IndexOutOfRange,
            ) && *final(self) == *old(self),
    {
        if index < self.in_progress.len() {
            Ok(self.in_progress.swap_remove(index))
        } else {
            Err(TodoError::IndexOutOfRange)
        }
    }

    /// Moves the in-progress element at `index` to the end of the completed
    /// list (swap-remove, then append) and returns it; rejects an index not
    /// less than the in-progress list's length.
    pub fn complete(&mut self, index: usize) -> (r: Result<String, TodoError>)
        ensures
            index < old(self)@.in_progress.len() ==> r == Ok::<String, TodoError>(
                old(self)@.in_progress[index as int],
            ) && final(self)@ == tasks_complete(old(self)@, index as int),
            index >= old(self)@.in_progress.len() ==> r == Err::<String, TodoError>(
                TodoError::IndexOutOfRange,
            ) && *final(self) == *old(self),
    {
        if index < self.in_progress.len() {
            let moved = self.in_progress.swap_remove(index);
            self.completed.push(moved.clone());
            Ok(moved)
        } else {
            Err(TodoError::IndexOutOfRange)
        }
    }

    /// Empties the completed list; the in-progress list is untouched.
    /// Never fails, and clearing an already-empty list is a no-op success.
    pub fn clear_completed(&mut self)
        ensures
            final(self)@ == tasks_clear(old(self)@),
    {
        self.completed.clear();
    }

    /// Copies both lists into a read-only view.
    pub fn to_view(&self) -> (r: TaskView)
        ensures
            r@ == self@,
    {
        TaskView {
            in_progress: clone_texts(&self.in_progress),
            completed: clone_texts(&self.completed),
        }
    }
}

/// Replacing a valid in-progress index changes exactly that element, returns
/// no other change: the length and every other position are kept, and the
/// completed list is untouched.
pub proof fn lemma_update_replaces(t: TasksModel, i: int, todo: String)
    requires
        0 <= i < t.in_progress.len(),
    ensures
        tasks_update(t, i, todo).in_progress.len() == t.in_progress.len(),
        tasks_update(t, i, todo).in_progress[i] == todo,
        forall|j: int|
            0 <= j < t.in_progress.len() && j != i ==> tasks_update(t, i, todo).in_progress[j]
                == t.in_progress[j],
        tasks_update(t, i, todo).completed == t.completed,
{
}

/// Swap-removing a valid in-progress index shrinks the list by exactly one;
/// if the index was not the last, the former last element now occupies it,
/// and every other surviving position is kept. The completed list is
/// untouched.
pub proof fn lemma_delete_shrinks(t: TasksModel, i: int)
    requires
        0 <= i < t.in_progress.len(),
    ensures
        tasks_delete(t, i).in_progress.len() == t.in_progress.len() - 1,
        i < t.in_progress.len() - 1 ==> tasks_delete(t, i).in_progress[i]
            == t.in_progress.last(),
        forall|j: int|
            0 <= j < t.in_progress.len() - 1 && j != i ==> tasks_delete(t, i).in_progress[j]
                == t.in_progress[j],
        tasks_delete(t, i).completed == t.completed,
{
}

/// Completing a valid in-progress index reorders the in-progress list exactly
/// as a delete would, and appends the removed element to the end of the
/// completed list, whose length grows by exactly one.
pub proof fn lemma_complete_moves(t: TasksModel, i: int)
    requires
        0 <= i < t.in_progress.len(),
    ensures
        tasks_complete(t, i).in_progress == tasks_delete(t, i).in_progress,
        tasks_complete(t, i).completed == t.completed.push(t.in_progress[i]),
        tasks_complete(t, i).completed.len() == t.completed.len() + 1,
        tasks_complete(t, i).completed.last() == t.in_progress[i],
{
}

/// Clearing the completed list empties it and leaves the in-progress list
/// untouched, whatever the prior state; clearing twice in a row is the same
/// as clearing once.
pub proof fn lemma_clear_idempotent(t: TasksModel)
    ensures
        tasks_clear(t).completed == Seq::<String>::empty(),
        tasks_clear(t).in_progress == t.in_progress,
        tasks_clear(tasks_clear(t)) == tasks_clear(t),
{
}

} // verus!
