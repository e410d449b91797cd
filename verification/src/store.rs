//! The account store: a mapping from account identifier to that account's
//! task record. Records are created lazily by the first added task and are
//! never removed; reads never mutate and default to an empty record.

use crate::tasks::clone_texts;
use crate::tasks::{
    empty_model, tasks_add, tasks_clear, tasks_complete, tasks_delete, tasks_update,
};
use crate::tasks::{TaskView, Tasks, TasksModel, TodoError};
use vstd::prelude::*;

verus! {

/// The store, keyed by account identifier. Identifiers are opaque: the store
/// only compares them for equality, by their text.
pub struct TodoList {
    accounts: Vec<(String, Tasks)>,
}

/// The mapping that a sequence of account entries stands for: each entry's
/// identifier text maps to that entry's record, later entries winning (the
/// store keeps identifiers unique, so no two entries collide).
pub open spec fn store_map(s: Seq<(String, Tasks)>) -> Map<Seq<char>, TasksModel>
    decreases s.len(),
{
    if s.len() == 0 {
        Map::empty()
    } else {
        store_map(s.drop_last()).insert(s.last().0@, s.last().1@)
    }
}

/// No two entries carry the same identifier text.
pub open spec fn unique_keys(s: Seq<(String, Tasks)>) -> bool {
    forall|i: int, j: int| 0 <= i < j < s.len() ==> s[i].0@ != s[j].0@
}

/// What a read of account `id` yields: the stored record, or the empty
/// record where none exists.
pub open spec fn store_read(m: Map<Seq<char>, TasksModel>, id: Seq<char>) -> TasksModel {
    if m.contains_key(id) {
        m[id]
    } else {
        empty_model()
    }
}

/// The store after adding `todo` for account `id`; a record is created on
/// the account's first added task.
pub open spec fn store_add(
    m: Map<Seq<char>, TasksModel>,
    id: Seq<char>,
    todo: String,
) -> Map<Seq<char>, TasksModel> {
    m.insert(id, tasks_add(store_read(m, id), todo))
}

/// The store after replacing in-progress element `i` of account `id`.
pub open spec fn store_update(
    m: Map<Seq<char>, TasksModel>,
    id: Seq<char>,
    i: int,
    todo: String,
) -> Map<Seq<char>, TasksModel> {
    m.insert(id, tasks_update(m[id], i, todo))
}

/// The store after swap-removing in-progress element `i` of account `id`.
pub open spec fn store_delete(
    m: Map<Seq<char>, TasksModel>,
    id: Seq<char>,
    i: int,
) -> Map<Seq<char>, TasksModel> {
    m.insert(id, tasks_delete(m[id], i))
}

/// The store after moving in-progress element `i` of account `id` to the
/// end of that account's completed list.
pub open spec fn store_complete(
    m: Map<Seq<char>, TasksModel>,
    id: Seq<char>,
    i: int,
) -> Map<Seq<char>, TasksModel> {
    m.insert(id, tasks_complete(m[id], i))
}

/// The store after emptying the completed list of account `id`.
pub open spec fn store_clear(
    m: Map<Seq<char>, TasksModel>,
    id: Seq<char>,
) -> Map<Seq<char>, TasksModel> {
    m.insert(id, tasks_clear(m[id]))
}

/// An identifier is a key of the mapping exactly when some entry carries it.
proof fn lemma_store_map_contains(s: Seq<(String, Tasks)>, k: Seq<char>)
    ensures
        store_map(s).contains_key(k) <==> exists|i: int| 0 <= i < s.len() && s[i].0@ == k,
    decreases s.len(),
{
    if s.len() > 0 {
        lemma_store_map_contains(s.drop_last(), k);
        if s.last().0@ == k {
            assert(s[s.len() - 1].0@ == k);
        } else {
            if store_map(s).contains_key(k) {
                let i = choose|i: int| 0 <= i < s.drop_last().len() && s.drop_last()[i].0@ == k;
                assert(s[i].0@ == k);
            }
            if exists|i: int| 0 <= i < s.len() && s[i].0@ == k {
                let i = choose|i: int| 0 <= i < s.len() && s[i].0@ == k;
                assert(s.drop_last()[i].0@ == k);
            }
        }
    }
}

/// With unique identifiers, the mapping sends an entry's identifier to that
/// entry's record.
proof fn lemma_store_map_index(s: Seq<(String, Tasks)>, k: Seq<char>, i: int)
    requires
        unique_keys(s),
        0 <= i < s.len(),
        s[i].0@ == k,
    ensures
        store_map(s).contains_key(k),
        store_map(s)[k] == s[i].1@,
    decreases s.len(),
{
    if i == s.len() - 1 {
        assert(s.last() == s[i]);
    } else {
        assert(s[i].0@ != s.last().0@);
        assert(unique_keys(s.drop_last())) by {
            assert(forall|p: int, q: int|
                0 <= p < q < s.drop_last().len() ==> s.drop_last()[p] == s[p]
                    && s.drop_last()[q] == s[q]);
        }
        assert(s.drop_last()[i].0@ == k);
        lemma_store_map_index(s.drop_last(), k, i);
    }
}

/// Appending a fresh entry inserts its record under its identifier.
proof fn lemma_store_map_push(s: Seq<(String, Tasks)>, p: (String, Tasks))
    ensures
        store_map(s.push(p)) == store_map(s).insert(p.0@, p.1@),
{
    assert(s.push(p).drop_last() =~= s);
    assert(s.push(p).last() == p);
}

/// Replacing the entry at `i` by one with the same identifier re-points that
/// identifier at the new record and changes nothing else.
proof fn lemma_store_map_update(s: Seq<(String, Tasks)>, i: int, p: (String, Tasks))
    requires
        unique_keys(s),
        0 <= i < s.len(),
        p.0@ == s[i].0@,
    ensures
        store_map(s.update(i, p)) == store_map(s).insert(p.0@, p.1@),
    decreases s.len(),
{
    let t = s.update(i, p);
    if i == s.len() - 1 {
        assert(t.drop_last() =~= s.drop_last());
        assert(t.last() == p);
        assert(s.last().0@ == p.0@);
        assert(store_map(s.drop_last()).insert(s.last().0@, s.last().1@).insert(p.0@, p.1@)
            =~= store_map(s.drop_last()).insert(p.0@, p.1@));
    } else {
        assert(unique_keys(s.drop_last())) by {
            assert(forall|a: int, b: int|
                0 <= a < b < s.drop_last().len() ==> s.drop_last()[a] == s[a]
                    && s.drop_last()[b] == s[b]);
        }
        assert(s.drop_last()[i].0@ == p.0@);
        lemma_store_map_update(s.drop_last(), i, p);
        assert(t.drop_last() =~= s.drop_last().update(i, p));
        assert(t.last() == s.last());
        assert(p.0@ != s.last().0@);
        assert(store_map(s.drop_last()).insert(p.0@, p.1@).insert(s.last().0@, s.last().1@)
            =~= store_map(s.drop_last()).insert(s.last().0@, s.last().1@).insert(p.0@, p.1@));
    }
}

/// Replacing the entry at `i` by one carrying the same identifier value
/// keeps the identifiers unique and re-points that identifier at the new
/// record.
proof fn lemma_replace_entry(s: Seq<(String, Tasks)>, i: int, p: (String, Tasks))
    requires
        unique_keys(s),
        0 <= i < s.len(),
        p.0 == s[i].0,
    ensures
        unique_keys(s.update(i, p)),
        store_map(s.update(i, p)) == store_map(s).insert(p.0@, p.1@),
{
    let t = s.update(i, p);
    assert forall|a: int, b: int| 0 <= a < b < t.len() implies t[a].0@ != t[b].0@ by {
        assert(s[a].0@ != s[b].0@);
    }
    lemma_store_map_update(s, i, p);
}

impl View for TodoList {
    type V = Map<Seq<char>, TasksModel>;

    closed spec fn view(&self) -> Map<Seq<char>, TasksModel> {
        store_map(self.accounts@)
    }
}

impl TodoList {
    /// The store's invariant: account identifiers are unique, so each maps
    /// to exactly one record.
    pub closed spec fn wf(&self) -> bool {
        unique_keys(self.accounts@)
    }

    /// The position of the entry for `account_id`, if one exists.
    fn find_account(&self, account_id: &String) -> (r: Option<usize>)
        ensures
            match r {
                Some(i) => i < self.accounts@.len() && self.accounts@[i as int].0@
                    == account_id@,
                None => forall|i: int|
                    0 <= i < self.accounts@.len() ==> self.accounts@[i].0@ != account_id@,
            },
    {
        let mut j: usize = 0;
        while j < self.accounts.len()
            invariant
                j <= self.accounts@.len(),
                forall|i: int| 0 <= i < j ==> self.accounts@[i].0@ != account_id@,
            decreases self.accounts@.len() - j,
        {
            if self.accounts[j].0 == *account_id {
                return Some(j);
            }
            j = j + 1;
        }
        None
    }

    /// Returns both lists of the given account as a read-only view; an
    /// account with no record reads as empty. Reads never mutate and never
    /// fail.
    pub fn get_todo_list(&self, account_id: String) -> (r: TaskView)
        requires
            self.wf(),
        ensures
            r@ == store_read(self@, account_id@),
            !self@.contains_key(account_id@) ==> r@ == empty_model(),
    {
        match self.find_account(&account_id) {
            Some(i) => {
                let entry = &self.accounts[i];
                let r = TaskView {
                    in_progress: clone_texts(&entry.1.in_progress),
                    completed: clone_texts(&entry.1.completed),
                };
                proof {
                    lemma_store_map_index(self.accounts@, account_id@, i as int);
                }
                r
            },
            None => {
                proof {
                    lemma_store_map_contains(self.accounts@, account_id@);
                }
                TaskView { in_progress: Vec::new(), completed: Vec::new() }
            },
        }
    }

    /// Appends `todo` to the end of the given account's in-progress list,
    /// creating the record first if the account has none yet. Never fails.
    pub fn add_task(&mut self, account_id: String, todo: String)
        requires
            old(self).wf(),
        ensures
            final(self).wf(),
            final(self)@ == store_add(old(self)@, account_id@, todo),
    {
        proof {
            lemma_store_map_contains(self.accounts@, account_id@);
        }
        match self.find_account(&account_id) {
            Some(i) => {
                proof {
                    lemma_store_map_index(self.accounts@, account_id@, i as int);
                }
                let ghost s0 = self.accounts@;
                let (id, mut tasks) = self.accounts.remove(i);
                tasks.add(todo);
                let entry = (id, tasks);
                let ghost e = entry;
                self.accounts.insert(i, entry);
                proof {
                    assert(self.accounts@ =~= s0.update(i as int, e));
                    lemma_replace_entry(s0, i as int, e);
                    assert(self@ =~= store_add(old(self)@, account_id@, todo));
                }
            },
            None => {
                let ghost s0 = self.accounts@;
                let mut tasks = Tasks::new();
                tasks.add(todo);
                let entry = (account_id, tasks);
                let ghost e = entry;
                self.accounts.push(entry);
                proof {
                    lemma_store_map_push(s0, e);
                    assert forall|a: int, b: int|
                        0 <= a < b < self.accounts@.len() implies self.accounts@[a].0@
                        != self.accounts@[b].0@ by {
                        if b < s0.len() {
                            assert(s0[a].0@ != s0[b].0@);
                        } else {
                            assert(s0[a].0@ != e.0@);
                        }
                    }
                    assert(self@ =~= store_add(old(self)@, account_id@, todo));
                }
            },
        }
    }

    /// Replaces the in-progress element at `index` of the given account with
    /// `todo` and returns the prior value. Fails with `AccountNotFound` when
    /// the account has no record (no record is created), and with
    /// `IndexOutOfRange` when `index` is not less than the in-progress
    /// list's length; a failed call leaves the store unchanged.
    pub fn update_task(&mut self, account_id: String, index: usize, todo: String) -> (r: Result<
        String,
        TodoError,
    >)
        requires
            old(self).wf(),
        ensures
            final(self).wf(),
            !old(self)@.contains_key(account_id@) ==> r == Err::<String, TodoError>(
                TodoError::AccountNotFound,
            ) && final(self)@ == old(self)@,
            old(self)@.contains_key(account_id@) && index >= old(self)@[account_id@].in_progress.len()
                ==> r == Err::<String, TodoError>(TodoError::IndexOutOfRange) && final(self)@
                == old(self)@,
            old(self)@.contains_key(account_id@) && index < old(self)@[account_id@].in_progress.len()
                ==> r == Ok::<String, TodoError>(old(self)@[account_id@].in_progress[index as int])
                && final(self)@ == store_update(old(self)@, account_id@, index as int, todo),
    {
        proof {
            lemma_store_map_contains(self.accounts@, account_id@);
        }
        match self.find_account(&account_id) {
            None => Err(TodoError::AccountNotFound),
            Some(i) => {
                proof {
                    lemma_store_map_index(self.accounts@, account_id@, i as int);
                }
                let ghost s0 = self.accounts@;
                let (id, mut tasks) = self.accounts.remove(i);
                let r = tasks.update(index, todo);
                let entry = (id, tasks);
                let ghost e = entry;
                self.accounts.insert(i, entry);
                proof {
                    assert(self.accounts@ =~= s0.update(i as int, e));
                    lemma_replace_entry(s0, i as int, e);
                    if r is Err {
                        assert(e == s0[i as int]);
                        assert(self@ =~= old(self)@);
                    } else {
                        assert(self@ =~= store_update(
                            old(self)@,
                            account_id@,
                            index as int,
                            todo,
                        ));
                    }
                }
                r
            },
        }
    }

    /// Removes the in-progress element at `index` of the given account by
    /// swap-remove and returns it: the former last element moves into the
    /// freed slot, so order is deliberately not preserved. Fails exactly as
    /// `update_task` does, leaving the store unchanged.
    pub fn delete_task(&mut self, account_id: String, index: usize) -> (r: Result<
        String,
        TodoError,
    >)
        requires
            old(self).wf(),
        ensures
            final(self).wf(),
            !old(self)@.contains_key(account_id@) ==> r == Err::<String, TodoError>(
                TodoError::AccountNotFound,
            ) && final(self)@ == old(self)@,
            old(self)@.contains_key(account_id@) && index >= old(self)@[account_id@].in_progress.len()
                ==> r == Err::<String, TodoError>(TodoError::IndexOutOfRange) && final(self)@
                == old(self)@,
            old(self)@.contains_key(account_id@) && index < old(self)@[account_id@].in_progress.len()
                ==> r == Ok::<String, TodoError>(old(self)@[account_id@].in_progress[index as int])
                && final(self)@ == store_delete(old(self)@, account_id@, index as int),
    {
        proof {
            lemma_store_map_contains(self.accounts@, account_id@);
        }
        match self.find_account(&account_id) {
            None => Err(TodoError::AccountNotFound),
            Some(i) => {
                proof {
                    lemma_store_map_index(self.accounts@, account_id@, i as int);
                }
                let ghost s0 = self.accounts@;
                let (id, mut tasks) = self.accounts.remove(i);
                let r = tasks.delete(index);
                let entry = (id, tasks);
                let ghost e = entry;
                self.accounts.insert(i, entry);
                proof {
                    assert(self.accounts@ =~= s0.update(i as int, e));
                    lemma_replace_entry(s0, i as int, e);
                    if r is Err {
                        assert(e == s0[i as int]);
                        assert(self@ =~= old(self)@);
                    } else {
                        assert(self@ =~= store_delete(old(self)@, account_id@, index as int));
                    }
                }
                r
            },
        }
    }

    /// Moves the in-progress element at `index` of the given account to the
    /// end of that account's completed list (the in-progress list reorders
    /// exactly as a delete would) and returns it. Fails exactly as
    /// `update_task` does, leaving the store unchanged.
    pub fn check_completed_task(&mut self, account_id: String, index: usize) -> (r: Result<
        String,
        TodoError,
    >)
        requires
            old(self).wf(),
        ensures
            final(self).wf(),
            !old(self)@.contains_key(account_id@) ==> r == Err::<String, TodoError>(
                TodoError::AccountNotFound,
            ) && final(self)@ == old(self)@,
            old(self)@.contains_key(account_id@) && index >= old(self)@[account_id@].in_progress.len()
                ==> r == Err::<String, TodoError>(TodoError::IndexOutOfRange) && final(self)@
                == old(self)@,
            old(self)@.contains_key(account_id@) && index < old(self)@[account_id@].in_progress.len()
                ==> r == Ok::<String, TodoError>(old(self)@[account_id@].in_progress[index as int])
                && final(self)@ == store_complete(old(self)@, account_id@, index as int),
    {
        proof {
            lemma_store_map_contains(self.accounts@, account_id@);
        }
        match self.find_account(&account_id) {
            None => Err(TodoError::AccountNotFound),
            Some(i) => {
                proof {
                    lemma_store_map_index(self.accounts@, account_id@, i as int);
                }
                let ghost s0 = self.accounts@;
                let (id, mut tasks) = self.accounts.remove(i);
                let r = tasks.complete(index);
                let entry = (id, tasks);
                let ghost e = entry;
                self.accounts.insert(i, entry);
                proof {
                    assert(self.accounts@ =~= s0.update(i as int, e));
                    lemma_replace_entry(s0, i as int, e);
                    if r is Err {
                        assert(e == s0[i as int]);
                        assert(self@ =~= old(self)@);
                    } else {
                        assert(self@ =~= store_complete(
                            old(self)@,
                            account_id@,
                            index as int,
                        ));
                    }
                }
                r
            },
        }
    }

    /// Empties the given account's completed list; the in-progress list is
    /// untouched, and clearing an already-empty list succeeds as a no-op.
    /// Fails with `AccountNotFound` when the account has no record, leaving
    /// the store unchanged.
    pub fn clear_all_completed_tasks(&mut self, account_id: String) -> (r: Result<(), TodoError>)
        requires
            old(self).wf(),
        ensures
            final(self).wf(),
            !old(self)@.contains_key(account_id@) ==> r == Err::<(), TodoError>(
                TodoError::AccountNotFound,
            ) && final(self)@ == old(self)@,
            old(self)@.contains_key(account_id@) ==> r == Ok::<(), TodoError>(()) && final(self)@
                == store_clear(old(self)@, account_id@),
    {
        proof {
            lemma_store_map_contains(self.accounts@, account_id@);
        }
        match self.find_account(&account_id) {
            None => Err(TodoError::AccountNotFound),
            Some(i) => {
                proof {
                    lemma_store_map_index(self.accounts@, account_id@, i as int);
                }
                let ghost s0 = self.accounts@;
                let (id, mut tasks) = self.accounts.remove(i);
                tasks.clear_completed();
                let entry = (id, tasks);
                let ghost e = entry;
                self.accounts.insert(i, entry);
                proof {
                    assert(self.accounts@ =~= s0.update(i as int, e));
                    lemma_replace_entry(s0, i as int, e);
                    assert(self@ =~= store_clear(old(self)@, account_id@));
                }
                Ok(())
            },
        }
    }
}

/// Reading an account that has no record yields an empty view: both lists
/// empty.
pub proof fn lemma_read_absent(m: Map<Seq<char>, TasksModel>, id: Seq<char>)
    requires
        !m.contains_key(id),
    ensures
        store_read(m, id) == empty_model(),
{
}

/// After adding a task for an account, a read of that account shows the new
/// text as the last in-progress element, and the completed list is exactly
/// what it was before; every other account's record is untouched.
pub proof fn lemma_add_then_read(m: Map<Seq<char>, TasksModel>, id: Seq<char>, todo: String)
    ensures
        store_read(store_add(m, id, todo), id).in_progress == store_read(m, id).in_progress.push(
            todo,
        ),
        store_read(store_add(m, id, todo), id).in_progress.last() == todo,
        store_read(store_add(m, id, todo), id).completed == store_read(m, id).completed,
        forall|k: Seq<char>|
            k != id ==> #[trigger] store_read(store_add(m, id, todo), k) == store_read(m, k),
{
}

/// Clearing an account's completed list twice in a row leaves the store
/// exactly as clearing it once does.
pub proof fn lemma_store_clear_idempotent(m: Map<Seq<char>, TasksModel>, id: Seq<char>)
    requires
        m.contains_key(id),
    ensures
        store_clear(store_clear(m, id), id) == store_clear(m, id),
{
    assert(store_clear(store_clear(m, id), id) =~= store_clear(m, id));
}

impl Default for TodoList {
    /// A fresh store with no accounts.
    fn default() -> (r: TodoList)
        ensures
            r.wf(),
            r@ == Map::<Seq<char>, TasksModel>::empty(),
    {
        TodoList { accounts: Vec::new() }
    }
}

} // verus!
