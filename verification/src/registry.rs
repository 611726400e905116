use crate::task::Task;
use vstd::prelude::*;

verus! {

/// A running or paused task carries this id.
pub open spec fn is_active_id(tasks: Seq<Task>, id: usize) -> bool {
    exists|i: int|
        0 <= i < tasks.len() && (#[trigger] tasks[i]).id == id && tasks[i].status.is_active()
}

/// The ids of the tasks that own a live child: the running and the paused.
pub open spec fn active_ids(tasks: Seq<Task>) -> Set<usize> {
    Set::new(|id: usize| is_active_id(tasks, id))
}

/// Task lists that agree on ids and on who is running or paused have the
/// same active ids.
pub proof fn lemma_active_same(a: Seq<Task>, b: Seq<Task>)
    requires
        a.len() == b.len(),
        forall|i: int|
            0 <= i < a.len() ==> (#[trigger] a[i]).id == b[i].id && a[i].status.is_active()
                == b[i].status.is_active(),
    ensures
        active_ids(a) == active_ids(b),
{
    assert forall|id: usize| is_active_id(a, id) == is_active_id(b, id) by {
        if is_active_id(a, id) {
            let i = choose|i: int|
                0 <= i < a.len() && (#[trigger] a[i]).id == id && a[i].status.is_active();
            assert(b[i].id == id && b[i].status.is_active());
        }
        if is_active_id(b, id) {
            let i = choose|i: int|
                0 <= i < b.len() && (#[trigger] b[i]).id == id && b[i].status.is_active();
            assert(a[i].id == id && a[i].status.is_active());
        }
    }
    assert(active_ids(a) =~= active_ids(b));
}

/// A change of one task's status adds its id to the active ids or takes
/// it out.
pub proof fn lemma_active_flip(a: Seq<Task>, b: Seq<Task>, p: int)
    requires
        a.len() == b.len(),
        0 <= p < a.len(),
        forall|i: int, j: int| 0 <= i < j < a.len() ==> (#[trigger] a[i]).id != (#[trigger] a[j]).id,
        forall|i: int| 0 <= i < a.len() ==> (#[trigger] a[i]).id == b[i].id,
        forall|i: int|
            0 <= i < a.len() && i != p ==> (#[trigger] a[i]).status.is_active()
                == b[i].status.is_active(),
    ensures
        active_ids(b) == if b[p].status.is_active() {
            active_ids(a).insert(a[p].id)
        } else {
            active_ids(a).remove(a[p].id)
        },
{
    let target = if b[p].status.is_active() {
        active_ids(a).insert(a[p].id)
    } else {
        active_ids(a).remove(a[p].id)
    };
    assert forall|id: usize| is_active_id(b, id) == target.contains(id) by {
        if is_active_id(b, id) {
            let i = choose|i: int|
                0 <= i < b.len() && (#[trigger] b[i]).id == id && b[i].status.is_active();
            if i != p {
                assert(a[i].id == id && a[i].status.is_active());
                if i < p {
                    assert(a[i].id != a[p].id);
                } else {
                    assert(a[p].id != a[i].id);
                }
            }
        }
        if target.contains(id) {
            if id == a[p].id {
                assert(b[p].id == id);
            } else {
                assert(is_active_id(a, id));
                let i = choose|i: int|
                    0 <= i < a.len() && (#[trigger] a[i]).id == id && a[i].status.is_active();
                assert(b[i].id == id && b[i].status.is_active());
            }
        }
    }
    assert(active_ids(b) =~= target);
}

/// Without a running or paused task there is no active id.
pub proof fn lemma_active_none(tasks: Seq<Task>)
    requires
        forall|i: int| 0 <= i < tasks.len() ==> !(#[trigger] tasks[i]).status.is_active(),
    ensures
        active_ids(tasks) == Set::<usize>::empty(),
{
    assert forall|id: usize| !is_active_id(tasks, id) by {}
    assert(active_ids(tasks) =~= Set::<usize>::empty());
}

/// Taking out a task that is neither running nor paused leaves the active
/// ids as they are.
pub proof fn lemma_active_remove(tasks: Seq<Task>, p: int)
    requires
        0 <= p < tasks.len(),
        !tasks[p].status.is_active(),
    ensures
        active_ids(tasks.remove(p)) == active_ids(tasks),
{
    let b = tasks.remove(p);
    assert forall|id: usize| is_active_id(b, id) == is_active_id(tasks, id) by {
        if is_active_id(b, id) {
            let i = choose|i: int|
                0 <= i < b.len() && (#[trigger] b[i]).id == id && b[i].status.is_active();
            let i0 = if i < p { i } else { i + 1 };
            assert(tasks[i0].id == id && tasks[i0].status.is_active());
        }
        if is_active_id(tasks, id) {
            let i = choose|i: int|
                0 <= i < tasks.len() && (#[trigger] tasks[i]).id == id
                    && tasks[i].status.is_active();
            let i1 = if i < p { i } else { i - 1 };
            assert(b[i1].id == id && b[i1].status.is_active());
        }
    }
    assert(active_ids(b) =~= active_ids(tasks));
}

/// A new task that is neither running nor paused leaves the active ids as
/// they are.
pub proof fn lemma_active_push(tasks: Seq<Task>, t: Task)
    requires
        !t.status.is_active(),
    ensures
        active_ids(tasks.push(t)) == active_ids(tasks),
{
    let b = tasks.push(t);
    assert forall|id: usize| is_active_id(b, id) == is_active_id(tasks, id) by {
        if is_active_id(b, id) {
            let i = choose|i: int|
                0 <= i < b.len() && (#[trigger] b[i]).id == id && b[i].status.is_active();
            assert(tasks[i].id == id && tasks[i].status.is_active());
        }
        if is_active_id(tasks, id) {
            let i = choose|i: int|
                0 <= i < tasks.len() && (#[trigger] tasks[i]).id == id
                    && tasks[i].status.is_active();
            assert(b[i].id == id && b[i].status.is_active());
        }
    }
    assert(active_ids(b) =~= active_ids(tasks));
}

} // verus!
