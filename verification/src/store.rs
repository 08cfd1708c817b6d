use vstd::prelude::*;
use crate::task::{Task, TaskView, store_view, contains_id};

verus! {

/// The store after adding a task with the given title: the new task is
/// appended, carries id `len + 1`, and starts out not completed.
pub open spec fn spec_add(s: Seq<TaskView>, title: Seq<char>) -> Seq<TaskView> {
    s.push((TaskView { id: (s.len() + 1) as u32, title, completed: false }))
}

/// The given task with its completion flag set.
pub open spec fn mark_done(t: TaskView) -> TaskView {
    (TaskView { id: t.id, title: t.title, completed: true })
}

/// The store after completing an id: the first task with that id (if any)
/// has its flag set; every other task is unchanged.
pub open spec fn mark_first_done(s: Seq<TaskView>, id: u32) -> Seq<TaskView>
    decreases s.len(),
{
    if s.len() == 0 {
        s
    } else if s[0].id == id {
        seq![mark_done(s[0])] + s.drop_first()
    } else {
        seq![s[0]] + mark_first_done(s.drop_first(), id)
    }
}

/// The store after deleting an id: every task with that id is removed and
/// the remaining tasks keep their relative order.
pub open spec fn remove_id(s: Seq<TaskView>, id: u32) -> Seq<TaskView>
    decreases s.len(),
{
    if s.len() == 0 {
        s
    } else if s.last().id == id {
        remove_id(s.drop_last(), id)
    } else {
        remove_id(s.drop_last(), id).push(s.last())
    }
}

/// Appends a new task with the given title.  The new task is the last one,
/// its id is the prior count plus one, and it starts out not completed.
///
/// Beware: because the id looks only at the current count, an add after a
/// deletion can assign an id that an existing or earlier task already
/// carried.  Completion then touches the first match only, and deletion
/// removes every match.
pub fn add_task(tasks: &mut Vec<Task>, title: String)
    requires
        old(tasks)@.len() < u32::MAX,
    ensures
        store_view(final(tasks)@) == spec_add(store_view(old(tasks)@), title@),
{
    let id = tasks.len() as u32 + 1;
    let ghost prior = store_view(tasks@);
    tasks.push(Task { id, title, completed: false });
    proof {
        assert(store_view(tasks@) =~= spec_add(prior, tasks@.last().title@));
    }
}

/// Sets the completion flag of the first task whose id matches, and
/// reports whether one was found.  A miss leaves the store unchanged.
pub fn complete_task(tasks: &mut Vec<Task>, id: u32) -> (found: bool)
    ensures
        found == contains_id(store_view(old(tasks)@), id),
        store_view(final(tasks)@) == mark_first_done(store_view(old(tasks)@), id),
        !found ==> final(tasks)@ == old(tasks)@,
{
    let ghost s = store_view(old(tasks)@);
    let mut i: usize = 0;
    while i < tasks.len()
        invariant
            0 <= i <= tasks.len(),
            tasks@ == old(tasks)@,
            s == store_view(tasks@),
            forall|j: int| 0 <= j < i ==> s[j].id != id,
        decreases tasks@.len() - i,
    {
        if tasks[i].id == id {
            let done = Task { id: tasks[i].id, title: tasks[i].title.clone(), completed: true };
            tasks[i] = done;
            proof {
                assert(store_view(tasks@) =~= s.update(i as int, mark_done(s[i as int])));
                lemma_mark_first_done_at(s, id, i as int);
            }
            return true;
        }
        i += 1;
    }
    proof {
        lemma_mark_first_done_miss(s, id);
    }
    false
}

/// Removes every task whose id matches, and reports whether any was
/// removed.  A miss leaves the store unchanged.
pub fn delete_task(tasks: &mut Vec<Task>, id: u32) -> (removed: bool)
    ensures
        removed == contains_id(store_view(old(tasks)@), id),
        store_view(final(tasks)@) == remove_id(store_view(old(tasks)@), id),
        !removed ==> final(tasks)@ == old(tasks)@,
{
    let ghost s = store_view(old(tasks)@);
    let mut kept: Vec<Task> = Vec::new();
    let mut i: usize = 0;
    while i < tasks.len()
        invariant
            0 <= i <= tasks.len(),
            tasks@ == old(tasks)@,
            s == store_view(tasks@),
            store_view(kept@) == remove_id(s.take(i as int), id),
        decreases tasks@.len() - i,
    {
        let ghost prefix = s.take(i as int);
        if tasks[i].id != id {
            kept.push(tasks[i].duplicate());
        }
        proof {
            assert(s.take(i + 1).drop_last() =~= prefix);
            assert(s.take(i + 1).last() == s[i as int]);
            if s[i as int].id != id {
                assert(store_view(kept@) =~= remove_id(prefix, id).push(s[i as int]));
            }
        }
        i += 1;
    }
    proof {
        assert(s.take(s.len() as int) =~= s);
        lemma_remove_id_len(s, id);
        if store_view(kept@).len() < s.len() {
            assert(tasks@.len() == s.len());
        }
    }
    let removed = kept.len() < tasks.len();
    if removed {
        *tasks = kept;
    } else {
        proof {
            lemma_remove_id_miss(s, id);
        }
    }
    removed
}

/// If the first match of `id` stands at position `i`, completing `id`
/// updates exactly that position.
proof fn lemma_mark_first_done_at(s: Seq<TaskView>, id: u32, i: int)
    requires
        0 <= i < s.len(),
        s[i].id == id,
        forall|j: int| 0 <= j < i ==> s[j].id != id,
    ensures
        mark_first_done(s, id) == s.update(i, mark_done(s[i])),
    decreases i,
{
    if i == 0 {
        assert(mark_first_done(s, id) =~= s.update(0, mark_done(s[0])));
    } else {
        lemma_mark_first_done_at(s.drop_first(), id, i - 1);
        assert(s.drop_first().update(i - 1, mark_done(s.drop_first()[i - 1])) =~= s.update(
            i,
            mark_done(s[i]),
        ).drop_first());
        assert(mark_first_done(s, id) =~= s.update(i, mark_done(s[i])));
    }
}

/// Completing an id that no task carries leaves the store unchanged.
pub proof fn lemma_mark_first_done_miss(s: Seq<TaskView>, id: u32)
    requires
        !contains_id(s, id),
    ensures
        mark_first_done(s, id) == s,
    decreases s.len(),
{
    if s.len() > 0 {
        assert(s[0].id != id);
        assert(!contains_id(s.drop_first(), id)) by {
            assert forall|k: int| 0 <= k < s.drop_first().len() implies s.drop_first()[k].id != id by {
                assert(s.drop_first()[k] == s[k + 1]);
            }
        }
        lemma_mark_first_done_miss(s.drop_first(), id);
        assert(mark_first_done(s, id) =~= s);
    }
}

/// Deleting removes tasks and nothing else: the result is never longer,
/// and it is strictly shorter exactly when some task carries the id.
pub proof fn lemma_remove_id_len(s: Seq<TaskView>, id: u32)
    ensures
        remove_id(s, id).len() <= s.len(),
        contains_id(s, id) <==> remove_id(s, id).len() < s.len(),
    decreases s.len(),
{
    if s.len() > 0 {
        lemma_remove_id_len(s.drop_last(), id);
        if s.last().id == id {
            assert(contains_id(s, id));
        } else {
            assert(contains_id(s.drop_last(), id) ==> contains_id(s, id));
            if contains_id(s, id) {
                let k = choose|k: int| 0 <= k < s.len() && s[k].id == id;
                assert(s.drop_last()[k] == s[k]);
                assert(contains_id(s.drop_last(), id));
            }
        }
    }
}

/// Deleting an id that no task carries leaves the store unchanged.
pub proof fn lemma_remove_id_miss(s: Seq<TaskView>, id: u32)
    requires
        !contains_id(s, id),
    ensures
        remove_id(s, id) == s,
    decreases s.len(),
{
    if s.len() > 0 {
        assert(s.last().id != id);
        assert(!contains_id(s.drop_last(), id)) by {
            assert forall|k: int| 0 <= k < s.drop_last().len() implies s.drop_last()[k].id != id by {
                assert(s.drop_last()[k] == s[k]);
            }
        }
        lemma_remove_id_miss(s.drop_last(), id);
        assert(remove_id(s, id) =~= s);
    }
}

/// Deletion keeps exactly the tasks whose id differs, in order: it equals
/// a filter of the store.
pub proof fn lemma_remove_id_is_filter(s: Seq<TaskView>, id: u32)
    ensures
        remove_id(s, id) == s.filter(|t: TaskView| t.id != id),
    decreases s.len(),
{
    reveal(Seq::filter);
    if s.len() > 0 {
        lemma_remove_id_is_filter(s.drop_last(), id);
    }
}

/// Law: completing an id that no task carries leaves the stored text of
/// the store unchanged, byte for byte.
pub proof fn lemma_complete_missing_keeps_file(s: Seq<TaskView>, id: u32)
    requires
        !contains_id(s, id),
    ensures
        crate::codec::ser_store(mark_first_done(s, id)) == crate::codec::ser_store(s),
{
    lemma_mark_first_done_miss(s, id);
}

/// Law: deleting an id that no task carries leaves the stored text of
/// the store unchanged, byte for byte.
pub proof fn lemma_delete_missing_keeps_file(s: Seq<TaskView>, id: u32)
    requires
        !contains_id(s, id),
    ensures
        crate::codec::ser_store(remove_id(s, id)) == crate::codec::ser_store(s),
{
    lemma_remove_id_miss(s, id);
}

/// The store built by adding each title in turn, starting from nothing.
pub open spec fn add_all(titles: Seq<Seq<char>>) -> Seq<TaskView>
    decreases titles.len(),
{
    if titles.len() == 0 {
        Seq::empty()
    } else {
        spec_add(add_all(titles.drop_last()), titles.last())
    }
}

/// Law: for any sequence of adds with no deletions in between, the store
/// holds one task per title, and the Nth add (counting from 1) assigned
/// id N.
pub proof fn lemma_nth_add_id(titles: Seq<Seq<char>>, n: int)
    requires
        0 <= n < titles.len(),
        titles.len() <= u32::MAX,
    ensures
        add_all(titles).len() == titles.len(),
        add_all(titles)[n].id == n + 1,
        add_all(titles)[n].title == titles[n],
        add_all(titles)[n].completed == false,
    decreases titles.len(),
{
    lemma_add_all_len(titles);
    if n < titles.len() - 1 {
        lemma_nth_add_id(titles.drop_last(), n);
    } else {
        lemma_add_all_len(titles.drop_last());
    }
}

/// Each add appends exactly one task.
pub proof fn lemma_add_all_len(titles: Seq<Seq<char>>)
    ensures
        add_all(titles).len() == titles.len(),
    decreases titles.len(),
{
    if titles.len() > 0 {
        lemma_add_all_len(titles.drop_last());
    }
}

} // verus!
