use crate::handler::TaskHandler;
use crate::registry::{active_ids, is_active_id};
use crate::scheduler::{active_count, deps_done, has_failed_dep, lemma_count_change, succeeded};
use crate::state::{GroupStatus, State};
use crate::task::{Task, TaskResult, TaskStatus};
use crate::transitions::{cascaded, task_started};
use vstd::prelude::*;

verus! {

/// While the book tracks the store, a task has an entry in it exactly when
/// it is running or paused: a task that is not paused has one exactly when
/// it is running.
pub proof fn registry_matches_status(handler: TaskHandler, state: State, i: int)
    requires
        state.wf(),
        handler.tracks(state),
        0 <= i < state.tasks@.len(),
    ensures
        handler@.contains(state.tasks@[i].id) <==> state.tasks@[i].status.is_active(),
        !(state.tasks@[i].status is Paused) ==> (handler@.contains(state.tasks@[i].id) <==> (
        state.tasks@[i].status is Running)),
{
    let tasks = state.tasks@;
    let id = tasks[i].id;
    assert(handler@.contains(id) == is_active_id(tasks, id));
    if is_active_id(tasks, id) {
        let j = choose|j: int|
            0 <= j < tasks.len() && (#[trigger] tasks[j]).id == id && tasks[j].status.is_active();
        if j < i {
            assert(tasks[j].id < tasks[i].id);
        }
        if i < j {
            assert(tasks[i].id < tasks[j].id);
        }
    }
}

/// An operation of the store that leaves the set of running and paused
/// tasks as it is leaves the book in step with the store.
pub proof fn registry_survives_edits(handler: TaskHandler, before: State, after: State)
    requires
        handler.tracks(before),
        active_ids(after.tasks@) == active_ids(before.tasks@),
    ensures
        handler.tracks(after),
{
}

/// Starting an eligible task never takes a group over its limit.
pub proof fn spawning_keeps_limits(state: State, i: int, now: u64)
    requires
        state.wf(),
        state.within_limits(),
        state.eligible(i),
    ensures
        forall|g: int|
            0 <= g < state.groups@.len() ==> active_count(
                state.tasks@.update(i, task_started(state.tasks@[i], now)),
                (#[trigger] state.groups@[g]).name@,
            ) <= state.groups@[g].limit,
{
    let a = state.tasks@;
    let b = a.update(i, task_started(a[i], now));
    let name = a[i].group@;
    assert forall|g: int| 0 <= g < state.groups@.len() implies active_count(
        b,
        (#[trigger] state.groups@[g]).name@,
    ) <= state.groups@[g].limit by {
        let group = state.groups@[g].name@;
        lemma_count_change(a, b, i, group);
        if group == name {
            let h = choose|h: int|
                0 <= h < state.groups@.len() && (#[trigger] state.groups@[h]).name@ == name
                    && state.groups@[h].status == GroupStatus::Running && active_count(a, name)
                    < state.groups@[h].limit;
            if h < g {
                assert(state.groups@[h].name@ != state.groups@[g].name@);
            }
            if g < h {
                assert(state.groups@[g].name@ != state.groups@[h].name@);
            }
        }
    }
}

/// No task of a group whose limit is zero is spawned.
pub proof fn zero_limit_blocks_spawns(state: State, g: int, i: int)
    requires
        state.wf(),
        0 <= g < state.groups@.len(),
        state.groups@[g].limit == 0,
        0 <= i < state.tasks@.len(),
        state.tasks@[i].group@ == state.groups@[g].name@,
    ensures
        !state.eligible(i),
{
    let name = state.tasks@[i].group@;
    if state.has_room(name) {
        let h = choose|h: int|
            0 <= h < state.groups@.len() && (#[trigger] state.groups@[h]).name@ == name
                && state.groups@[h].status == GroupStatus::Running && active_count(
                state.tasks@,
                name,
            ) < state.groups@[h].limit;
        if h < g {
            assert(state.groups@[h].name@ != state.groups@[g].name@);
        }
        if g < h {
            assert(state.groups@[g].name@ != state.groups@[h].name@);
        }
    }
}

/// While a group's limit is zero, spawning an eligible task does not
/// raise the group's count of running and paused tasks.
pub proof fn zero_limit_count_never_grows(state: State, g: int, i: int, now: u64)
    requires
        state.wf(),
        0 <= g < state.groups@.len(),
        state.groups@[g].limit == 0,
        state.eligible(i),
    ensures
        active_count(
            state.tasks@.update(i, task_started(state.tasks@[i], now)),
            state.groups@[g].name@,
        ) == active_count(state.tasks@, state.groups@[g].name@),
{
    let a = state.tasks@;
    let b = a.update(i, task_started(a[i], now));
    let group = state.groups@[g].name@;
    if a[i].group@ == group {
        zero_limit_blocks_spawns(state, g, i);
    }
    lemma_count_change(a, b, i, group);
}

/// A task with a dependency that ended, and not well, is not eligible, and
/// its dependencies are not done, so that an explicit start refuses it
/// too: no operation of the store makes it `Running`.
pub proof fn failed_dependency_blocks_spawn(state: State, i: int)
    requires
        state.wf(),
        0 <= i < state.tasks@.len(),
        has_failed_dep(state.tasks@, i),
    ensures
        !deps_done(state.tasks@, i),
        !state.eligible(i),
{
    let tasks = state.tasks@;
    let j = choose|j: int|
        0 <= j < i && (#[trigger] tasks[j]).status.is_failure() && tasks[i].dependencies@.contains(
            tasks[j].id,
        );
    let deps = tasks[i].dependencies@;
    let k = choose|k: int| 0 <= k < deps.len() && deps[k] == tasks[j].id;
    if deps_done(tasks, i) {
        assert(succeeded(tasks, i, deps[k]));
        let m = choose|m: int|
            0 <= m < i && (#[trigger] tasks[m]).id == deps[k] && tasks[m].status.is_success();
        if m < j {
            assert(tasks[m].id < tasks[j].id);
        }
        if j < m {
            assert(tasks[j].id < tasks[m].id);
        }
    }
}

/// After the dependency pass, a task that waited for a task which ended,
/// and not well, has ended as `DependencyFailed`: whether that task failed
/// by itself or, in the same pass, for a dependency of its own. It has not
/// been running in between.
pub proof fn failure_reaches_dependants(
    before: Seq<Task>,
    after: Seq<Task>,
    i: int,
    j: int,
    now: u64,
)
    requires
        cascaded(before, after, now),
        0 <= i < j < before.len(),
        after[i].status.is_failure(),
        before[j].dependencies@.contains(before[i].id),
        before[j].status.is_waiting(),
    ensures
        after[j].status == TaskStatus::Done(TaskResult::DependencyFailed),
        after[j].start == before[j].start,
{
    assert(after[i].id == before[i].id);
    assert(after[j].dependencies == before[j].dependencies);
    assert(has_failed_dep(after, j));
}

} // verus!
