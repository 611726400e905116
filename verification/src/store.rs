use crate::registry::{active_ids, lemma_active_push, lemma_active_remove, lemma_active_same};
use crate::scheduler::{active_count, holds_slot, lemma_count_change};
use crate::state::{
    bumped, group_named, initial_status, next_generation, task_with_id, State,
};
use crate::task::{Error, Task, TaskStatus};
use crate::transitions::{lemma_position, lemma_wf_kept, position};
use vstd::prelude::*;

verus! {

/// Every id of the list names a task.
pub open spec fn all_known(tasks: Seq<Task>, ids: Seq<usize>) -> bool {
    forall|k: int| 0 <= k < ids.len() ==> task_with_id(tasks, #[trigger] ids[k])
}

/// Where an id stands in the display order.
pub open spec fn order_position(order: Seq<usize>, id: usize) -> int {
    choose|k: int| 0 <= k < order.len() && order[k] == id
}

/// Taking a task out lowers its group's count by what it held.
pub proof fn lemma_count_remove(tasks: Seq<Task>, p: int, group: Seq<char>)
    requires
        0 <= p < tasks.len(),
    ensures
        active_count(tasks.remove(p), group) + (if holds_slot(tasks[p], group) {
            1int
        } else {
            0int
        }) == active_count(tasks, group),
    decreases tasks.len(),
{
    if p == tasks.len() - 1 {
        assert(tasks.remove(p) =~= tasks.drop_last());
    } else {
        let rest = tasks.drop_last();
        lemma_count_remove(rest, p, group);
        assert(tasks.remove(p).drop_last() =~= rest.remove(p));
        assert(tasks.remove(p).last() == tasks.last());
        assert(rest[p] == tasks[p]);
    }
}

impl State {
    /// Where an id stands in the display order.
    pub fn display_position(&self, id: usize) -> (r: Option<usize>)
        ensures
            match r {
                Some(k) => k < self.order@.len() && self.order@[k as int] == id,
                None => !self.order@.contains(id),
            },
    {
        let mut k: usize = 0;
        while k < self.order.len()
            invariant
                k <= self.order@.len(),
                forall|m: int| 0 <= m < k ==> self.order@[m] != id,
            decreases self.order@.len() - k,
        {
            if self.order[k] == id {
                return Some(k);
            }
            k += 1;
        }
        None
    }

    /// Creates a task. Its group and every dependency must exist: a task
    /// can only wait for tasks created before it.
    pub fn add_task(
        &mut self,
        command: String,
        path: String,
        envs: Vec<(String, String)>,
        group: String,
        dependencies: Vec<usize>,
        enqueue_at: Option<u64>,
        label: Option<String>,
        stashed: bool,
    ) -> (r: Result<usize, Error>)
        requires
            old(self).wf(),
            old(self).next_id < usize::MAX,
        ensures
            final(self).wf(),
            r == if old(self).shutting_down {
                Err::<usize, Error>(Error::ShutdownInProgress)
            } else if !group_named(old(self).groups@, group@) || !all_known(
                old(self).tasks@,
                dependencies@,
            ) {
                Err::<usize, Error>(Error::NotFound)
            } else {
                Ok::<usize, Error>(old(self).next_id)
            },
            r is Err ==> *final(self) == *old(self),
            r is Ok ==> final(self).tasks@ == old(self).tasks@.push(
                (Task {
                    id: old(self).next_id,
                    command,
                    path,
                    envs,
                    group,
                    dependencies,
                    enqueue_at,
                    label,
                    status: initial_status(stashed, enqueue_at),
                    start: None,
                    end: None,
                    editing: false,
                }),
            ) && final(self).order@ == old(self).order@.push(old(self).next_id)
                && final(self).groups == old(self).groups && final(self).running == old(
                self,
            ).running
                && final(self).shutting_down == old(self).shutting_down
                && final(self).next_id == old(self).next_id + 1 && final(self).generation
                == bumped(old(self).generation),
            old(self).within_limits() ==> final(self).within_limits(),
            active_ids(final(self).tasks@) == active_ids(old(self).tasks@),
    {
        if self.shutting_down {
            return Err(Error::ShutdownInProgress);
        }
        if self.find_group(&group).is_none() {
            return Err(Error::NotFound);
        }
        let mut k: usize = 0;
        while k < dependencies.len()
            invariant
                k <= dependencies@.len(),
                *self == *old(self),
                self.wf(),
                !self.shutting_down,
                group_named(self.groups@, group@),
                forall|m: int| 0 <= m < k ==> task_with_id(self.tasks@, #[trigger] dependencies@[m]),
            decreases dependencies@.len() - k,
        {
            if self.find_task(dependencies[k]).is_none() {
                return Err(Error::NotFound);
            }
            k += 1;
        }
        let id = self.next_id;
        let status = if stashed {
            TaskStatus::Stashed
        } else if enqueue_at.is_some() {
            TaskStatus::Locked
        } else {
            TaskStatus::Queued
        };
        let task = Task {
            id,
            command,
            path,
            envs,
            group,
            dependencies,
            enqueue_at,
            label,
            status,
            start: None,
            end: None,
            editing: false,
        };
        self.tasks.push(task);
        self.order.push(id);
        self.next_id = id + 1;
        self.generation = next_generation(self.generation);
        proof {
            let a = old(self).tasks@;
            let b = self.tasks@;
            assert(b.drop_last() =~= a);
            lemma_active_push(a, b[a.len() as int]);
            assert(b =~= a.push(b[a.len() as int]));
            assert forall|i: int, c: int|
                0 <= i < b.len() && 0 <= c < b[i].dependencies@.len() implies (
            #[trigger] b[i].dependencies@[c]) < b[i].id by {
                if i < a.len() {
                    assert(b[i] == a[i]);
                } else {
                    let d = dependencies@[c];
                    assert(task_with_id(a, d));
                    let j = choose|j: int| 0 <= j < a.len() && (#[trigger] a[j]).id == d;
                    assert(a[j].id < old(self).next_id);
                }
            }
            assert forall|i: int| 0 <= i < b.len() implies group_named(
                self.groups@,
                (#[trigger] b[i]).group@,
            ) by {
                if i < a.len() {
                    assert(b[i] == a[i]);
                }
            }
            assert forall|i: int, j: int| 0 <= i < j < b.len() implies (#[trigger] b[i]).id < (
            #[trigger] b[j]).id by {
                assert(b[i] == a[i]);
                if j < a.len() {
                    assert(b[j] == a[j]);
                }
            }
            assert forall|i: int| 0 <= i < b.len() implies (#[trigger] b[i]).id
                < self.next_id by {
                if i < a.len() {
                    assert(b[i] == a[i]);
                }
            }
            let oa = old(self).order@;
            let ob = self.order@;
            assert forall|k: int| 0 <= k < oa.len() implies oa[k] < id && task_with_id(
                b,
                #[trigger] ob[k],
            ) by {
                assert(task_with_id(a, oa[k]));
                let i = choose|i: int| 0 <= i < a.len() && (#[trigger] a[i]).id == oa[k];
                assert(b[i] == a[i]);
                assert(a[i].id < old(self).next_id);
            }
            assert(b[a.len() as int].id == id);
            assert forall|k: int| 0 <= k < ob.len() implies task_with_id(b, #[trigger] ob[k]) by {
                if k < oa.len() {
                    assert(ob[k] == oa[k]);
                }
            }
            assert forall|x: int, y: int| 0 <= x < y < ob.len() implies (#[trigger] ob[x]) != (
            #[trigger] ob[y]) by {
                assert(ob[x] == oa[x]);
                assert(oa[x] < id);
                if y < oa.len() {
                    assert(ob[y] == oa[y]);
                }
            }
            assert forall|i: int| 0 <= i < b.len() implies ob.contains((#[trigger] b[i]).id) by {
                if i < a.len() {
                    assert(b[i] == a[i]);
                    assert(oa.contains(a[i].id));
                    let m = choose|m: int| 0 <= m < oa.len() && oa[m] == a[i].id;
                    assert(ob[m] == a[i].id);
                } else {
                    assert(ob[oa.len() as int] == id);
                }
            }
        }
        Ok(id)
    }

    /// Removes the record of a task that is neither running nor paused.
    pub fn remove_task(&mut self, id: usize) -> (r: Result<(), Error>)
        requires
            old(self).wf(),
        ensures
            final(self).wf(),
            r == if !task_with_id(old(self).tasks@, id) {
                Err::<(), Error>(Error::NotFound)
            } else if old(self).status_of(id).is_active() {
                Err::<(), Error>(Error::WrongState)
            } else {
                Ok::<(), Error>(())
            },
            r is Err ==> *final(self) == *old(self),
            r is Ok ==> final(self).tasks@ == old(self).tasks@.remove(
                position(old(self).tasks@, id),
            ) && final(self).order@ == old(self).order@.remove(
                order_position(old(self).order@, id),
            ) && final(self).groups == old(self).groups && final(self).running == old(
                self,
            ).running && final(self).shutting_down == old(self).shutting_down
                && final(self).next_id == old(self).next_id && final(self).generation == bumped(
                old(self).generation,
            ),
            old(self).within_limits() ==> final(self).within_limits(),
            active_ids(final(self).tasks@) == active_ids(old(self).tasks@),
    {
        match self.find_task(id) {
            None => Err(Error::NotFound),
            Some(p) => {
                proof {
                    lemma_position(*old(self), p as int);
                }
                if self.tasks[p].status.active() {
                    return Err(Error::WrongState);
                }
                proof {
                    assert(self.order@.contains(self.tasks@[p as int].id));
                }
                let k = match self.display_position(id) {
                    Some(k) => k,
                    None => 0,
                };
                self.tasks.remove(p);
                self.order.remove(k);
                self.generation = next_generation(self.generation);
                proof {
                    let a = old(self).tasks@;
                    let b = self.tasks@;
                    let oa = old(self).order@;
                    let ob = self.order@;
                    assert(order_position(oa, id) == k) by {
                        let q = order_position(oa, id);
                        assert(oa[q] == id);
                        if q < k {
                            assert(oa[q] != oa[k as int]);
                        }
                        if k < q {
                            assert(oa[k as int] != oa[q]);
                        }
                    }
                    assert forall|m: int| 0 <= m < ob.len() implies #[trigger] ob[m] == oa[if m
                        < k {
                        m
                    } else {
                        m + 1
                    }] by {}
                    assert forall|x: int, y: int| 0 <= x < y < ob.len() implies (
                    #[trigger] ob[x]) != (#[trigger] ob[y]) by {
                        let x0 = if x < k { x } else { x + 1 };
                        let y0 = if y < k { y } else { y + 1 };
                        assert(oa[x0] != oa[y0]);
                    }
                    assert forall|m: int| 0 <= m < ob.len() implies task_with_id(
                        b,
                        #[trigger] ob[m],
                    ) by {
                        let m0 = if m < k { m } else { m + 1 };
                        if m0 < k {
                            assert(oa[m0] != oa[k as int]);
                        } else {
                            assert(oa[k as int] != oa[m0]);
                        }
                        assert(task_with_id(a, oa[m0]));
                        let i = choose|i: int| 0 <= i < a.len() && (#[trigger] a[i]).id == oa[m0];
                        assert(i != p);
                        let i1 = if i < p { i } else { i - 1 };
                        assert(b[i1] == a[i]);
                    }
                    assert forall|i: int| 0 <= i < b.len() implies ob.contains(
                        (#[trigger] b[i]).id,
                    ) by {
                        let i0 = if i < p { i } else { i + 1 };
                        assert(b[i] == a[i0]);
                        if i0 < p {
                            assert(a[i0].id < a[p as int].id);
                        } else {
                            assert(a[p as int].id < a[i0].id);
                        }
                        assert(oa.contains(a[i0].id));
                        let m = choose|m: int| 0 <= m < oa.len() && oa[m] == a[i0].id;
                        assert(m != k);
                        let m1 = if m < k { m } else { m - 1 };
                        assert(ob[m1] == oa[m]);
                    }
                    lemma_active_remove(a, p as int);
                    assert forall|i: int| 0 <= i < b.len() implies #[trigger] b[i] == a[if i
                        < p {
                        i
                    } else {
                        i + 1
                    }] by {}
                    assert forall|i: int, j: int| 0 <= i < j < b.len() implies (
                    #[trigger] b[i]).id < (#[trigger] b[j]).id by {
                        let i0 = if i < p { i } else { i + 1 };
                        let j0 = if j < p { j } else { j + 1 };
                        assert(a[i0].id < a[j0].id);
                    }
                    assert forall|i: int| 0 <= i < b.len() implies (#[trigger] b[i]).id
                        < self.next_id && group_named(self.groups@, b[i].group@) by {
                        let i0 = if i < p { i } else { i + 1 };
                        assert(a[i0].id < self.next_id);
                    }
                    assert forall|i: int, c: int|
                        0 <= i < b.len() && 0 <= c < b[i].dependencies@.len() implies (
                    #[trigger] b[i].dependencies@[c]) < b[i].id by {
                        let i0 = if i < p { i } else { i + 1 };
                        assert(a[i0].dependencies@[c] < a[i0].id);
                    }
                    assert forall|group: Seq<char>| active_count(b, group) == active_count(
                        a,
                        group,
                    ) by {
                        lemma_count_remove(a, p as int, group);
                    }
                }
                Ok(())
            },
        }
    }

    /// Marks a waiting task as being edited, so that it is not spawned
    /// until the edit ends.
    pub fn begin_edit(&mut self, id: usize) -> (r: Result<(), Error>)
        requires
            old(self).wf(),
        ensures
            final(self).wf(),
            r == if !task_with_id(old(self).tasks@, id) {
                Err::<(), Error>(Error::NotFound)
            } else if !old(self).status_of(id).is_waiting() || old(self).task_of(id).editing {
                Err::<(), Error>(Error::WrongState)
            } else {
                Ok::<(), Error>(())
            },
            r is Err ==> *final(self) == *old(self),
            r is Ok ==> final(self).tasks@ == old(self).with_task(
                id,
                (Task { editing: true, ..old(self).task_of(id) }),
            ) && final(self).same_frame(*old(self)) && final(self).generation == bumped(
                old(self).generation,
            ) && !final(self).eligible(position(old(self).tasks@, id)),
            old(self).within_limits() ==> final(self).within_limits(),
            active_ids(final(self).tasks@) == active_ids(old(self).tasks@),
    {
        match self.find_task(id) {
            None => Err(Error::NotFound),
            Some(p) => {
                proof {
                    lemma_position(*old(self), p as int);
                }
                if !self.tasks[p].status.waiting() || self.tasks[p].editing {
                    return Err(Error::WrongState);
                }
                self.tasks[p].editing = true;
                self.generation = next_generation(self.generation);
                proof {
                    assert(self.tasks@ =~= old(self).with_task(
                        id,
                        (Task { editing: true, ..old(self).task_of(id) }),
                    ));
                    lemma_wf_kept(*old(self), *self);
                    lemma_active_same(old(self).tasks@, self.tasks@);
                    assert forall|group: Seq<char>|
                        active_count(self.tasks@, group) == active_count(
                            old(self).tasks@,
                            group,
                        ) by {
                        lemma_count_change(old(self).tasks@, self.tasks@, p as int, group);
                    }
                }
                Ok(())
            },
        }
    }

    /// Ends an edit: with `Some(command)` the task gets the new command,
    /// with `None` (an abort or a timeout) it keeps the old one. Either way
    /// the task may be spawned again. The command of a running or paused
    /// task is never changed.
    pub fn end_edit(&mut self, id: usize, command: Option<String>) -> (r: Result<(), Error>)
        requires
            old(self).wf(),
        ensures
            final(self).wf(),
            r == if !task_with_id(old(self).tasks@, id) {
                Err::<(), Error>(Error::NotFound)
            } else if !old(self).task_of(id).editing || old(self).status_of(id).is_active() {
                Err::<(), Error>(Error::WrongState)
            } else {
                Ok::<(), Error>(())
            },
            r is Err ==> *final(self) == *old(self),
            r is Ok ==> final(self).tasks@ == old(self).with_task(
                id,
                (Task {
                    editing: false,
                    command: match command {
                        Some(c) => c,
                        None => old(self).task_of(id).command,
                    },
                    ..old(self).task_of(id)
                }),
            ) && final(self).same_frame(*old(self)) && final(self).generation == bumped(
                old(self).generation,
            ),
            old(self).within_limits() ==> final(self).within_limits(),
            active_ids(final(self).tasks@) == active_ids(old(self).tasks@),
    {
        match self.find_task(id) {
            None => Err(Error::NotFound),
            Some(p) => {
                proof {
                    lemma_position(*old(self), p as int);
                }
                if !self.tasks[p].editing || self.tasks[p].status.active() {
                    return Err(Error::WrongState);
                }
                self.tasks[p].editing = false;
                match command {
                    Some(c) => {
                        self.tasks[p].command = c;
                    },
                    None => {},
                }
                self.generation = next_generation(self.generation);
                proof {
                    assert(self.tasks@ =~= old(self).with_task(
                        id,
                        (Task {
                            editing: false,
                            command: match command {
                                Some(c) => c,
                                None => old(self).task_of(id).command,
                            },
                            ..old(self).task_of(id)
                        }),
                    ));
                    lemma_wf_kept(*old(self), *self);
                    lemma_active_same(old(self).tasks@, self.tasks@);
                    assert forall|group: Seq<char>|
                        active_count(self.tasks@, group) == active_count(
                            old(self).tasks@,
                            group,
                        ) by {
                        lemma_count_change(old(self).tasks@, self.tasks@, p as int, group);
                    }
                }
                Ok(())
            },
        }
    }
}

impl State {
    /// Withholds a task that has not been started from scheduling.
    pub fn stash_task(&mut self, id: usize) -> (r: Result<(), Error>)
        requires
            old(self).wf(),
        ensures
            final(self).wf(),
            r == if !task_with_id(old(self).tasks@, id) {
                Err::<(), Error>(Error::NotFound)
            } else if !(old(self).status_of(id) is Queued || old(self).status_of(id) is Locked) {
                Err::<(), Error>(Error::WrongState)
            } else {
                Ok::<(), Error>(())
            },
            r is Err ==> *final(self) == *old(self),
            r is Ok ==> final(self).tasks@ == old(self).with_task(
                id,
                (Task { status: TaskStatus::Stashed, enqueue_at: None, ..old(self).task_of(id) }),
            ) && final(self).same_frame(*old(self)) && final(self).generation == bumped(
                old(self).generation,
            ),
            old(self).within_limits() ==> final(self).within_limits(),
            active_ids(final(self).tasks@) == active_ids(old(self).tasks@),
    {
        match self.find_task(id) {
            None => Err(Error::NotFound),
            Some(p) => {
                proof {
                    lemma_position(*old(self), p as int);
                }
                if !(self.tasks[p].status.queued() || self.tasks[p].status.locked()) {
                    return Err(Error::WrongState);
                }
                self.tasks[p].status = TaskStatus::Stashed;
                self.tasks[p].enqueue_at = None;
                self.generation = next_generation(self.generation);
                proof {
                    assert(self.tasks@ =~= old(self).with_task(
                        id,
                        (Task {
                            status: TaskStatus::Stashed,
                            enqueue_at: None,
                            ..old(self).task_of(id)
                        }),
                    ));
                    lemma_wf_kept(*old(self), *self);
                    lemma_active_same(old(self).tasks@, self.tasks@);
                    assert forall|group: Seq<char>|
                        active_count(self.tasks@, group) == active_count(
                            old(self).tasks@,
                            group,
                        ) by {
                        lemma_count_change(old(self).tasks@, self.tasks@, p as int, group);
                    }
                }
                Ok(())
            },
        }
    }

    /// Hands a stashed or deferred task back to scheduling: at once, or
    /// from the time `enqueue_at` on.
    pub fn enqueue_task(&mut self, id: usize, enqueue_at: Option<u64>) -> (r: Result<(), Error>)
        requires
            old(self).wf(),
        ensures
            final(self).wf(),
            r == if !task_with_id(old(self).tasks@, id) {
                Err::<(), Error>(Error::NotFound)
            } else if !(old(self).status_of(id) is Stashed || old(self).status_of(id) is Locked) {
                Err::<(), Error>(Error::WrongState)
            } else {
                Ok::<(), Error>(())
            },
            r is Err ==> *final(self) == *old(self),
            r is Ok ==> final(self).tasks@ == old(self).with_task(
                id,
                (Task {
                    status: initial_status(false, enqueue_at),
                    enqueue_at,
                    ..old(self).task_of(id)
                }),
            ) && final(self).same_frame(*old(self)) && final(self).generation == bumped(
                old(self).generation,
            ),
            old(self).within_limits() ==> final(self).within_limits(),
            active_ids(final(self).tasks@) == active_ids(old(self).tasks@),
    {
        match self.find_task(id) {
            None => Err(Error::NotFound),
            Some(p) => {
                proof {
                    lemma_position(*old(self), p as int);
                }
                if !(self.tasks[p].status.stashed() || self.tasks[p].status.locked()) {
                    return Err(Error::WrongState);
                }
                self.tasks[p].status = if enqueue_at.is_some() {
                    TaskStatus::Locked
                } else {
                    TaskStatus::Queued
                };
                self.tasks[p].enqueue_at = enqueue_at;
                self.generation = next_generation(self.generation);
                proof {
                    assert(self.tasks@ =~= old(self).with_task(
                        id,
                        (Task {
                            status: initial_status(false, enqueue_at),
                            enqueue_at,
                            ..old(self).task_of(id)
                        }),
                    ));
                    lemma_wf_kept(*old(self), *self);
                    lemma_active_same(old(self).tasks@, self.tasks@);
                    assert forall|group: Seq<char>|
                        active_count(self.tasks@, group) == active_count(
                            old(self).tasks@,
                            group,
                        ) by {
                        lemma_count_change(old(self).tasks@, self.tasks@, p as int, group);
                    }
                }
                Ok(())
            },
        }
    }
}

impl State {
    /// Exchanges the places of two tasks in the display order. Scheduling
    /// goes by id and is not affected.
    pub fn switch_tasks(&mut self, first: usize, second: usize) -> (r: Result<(), Error>)
        requires
            old(self).wf(),
        ensures
            final(self).wf(),
            r == if !task_with_id(old(self).tasks@, first) || !task_with_id(
                old(self).tasks@,
                second,
            ) {
                Err::<(), Error>(Error::NotFound)
            } else {
                Ok::<(), Error>(())
            },
            r is Err ==> *final(self) == *old(self),
            r is Ok ==> final(self).order@ == old(self).order@.update(
                order_position(old(self).order@, first),
                second,
            ).update(order_position(old(self).order@, second), first) && final(self).tasks == old(
                self,
            ).tasks && final(self).groups == old(self).groups && final(self).running == old(
                self,
            ).running && final(self).shutting_down == old(self).shutting_down
                && final(self).next_id == old(self).next_id && final(self).generation == bumped(
                old(self).generation,
            ),
    {
        let p = match self.find_task(first) {
            None => {
                return Err(Error::NotFound);
            },
            Some(p) => p,
        };
        let q = match self.find_task(second) {
            None => {
                return Err(Error::NotFound);
            },
            Some(q) => q,
        };
        proof {
            lemma_position(*old(self), p as int);
            lemma_position(*old(self), q as int);
            assert(self.order@.contains(self.tasks@[p as int].id));
            assert(self.order@.contains(self.tasks@[q as int].id));
        }
        let ka = match self.display_position(first) {
            Some(k) => k,
            None => 0,
        };
        let kb = match self.display_position(second) {
            Some(k) => k,
            None => 0,
        };
        self.order[ka] = second;
        self.order[kb] = first;
        self.generation = next_generation(self.generation);
        proof {
            let oa = old(self).order@;
            let ob = self.order@;
            let tasks = self.tasks@;
            assert(order_position(oa, first) == ka) by {
                let k = order_position(oa, first);
                if k < ka {
                    assert(oa[k] != oa[ka as int]);
                }
                if ka < k {
                    assert(oa[ka as int] != oa[k]);
                }
            }
            assert(order_position(oa, second) == kb) by {
                let k = order_position(oa, second);
                if k < kb {
                    assert(oa[k] != oa[kb as int]);
                }
                if kb < k {
                    assert(oa[kb as int] != oa[k]);
                }
            }
            assert(ob =~= oa.update(ka as int, second).update(kb as int, first));
            assert forall|m: int| 0 <= m < ob.len() implies #[trigger] ob[m] == oa[if m == ka {
                kb as int
            } else if m == kb {
                ka as int
            } else {
                m
            }] by {}
            assert forall|x: int, y: int| 0 <= x < y < ob.len() implies (#[trigger] ob[x]) != (
            #[trigger] ob[y]) by {
                let x0 = if x == ka { kb as int } else if x == kb { ka as int } else { x };
                let y0 = if y == ka { kb as int } else if y == kb { ka as int } else { y };
                if x0 < y0 {
                    assert(oa[x0] != oa[y0]);
                } else {
                    assert(oa[y0] != oa[x0]);
                }
            }
            assert forall|m: int| 0 <= m < ob.len() implies task_with_id(
                tasks,
                #[trigger] ob[m],
            ) by {
                let m0 = if m == ka { kb as int } else if m == kb { ka as int } else { m };
                assert(task_with_id(tasks, oa[m0]));
            }
            assert forall|i: int| 0 <= i < tasks.len() implies ob.contains(
                (#[trigger] tasks[i]).id,
            ) by {
                assert(oa.contains(tasks[i].id));
                let m = choose|m: int| 0 <= m < oa.len() && oa[m] == tasks[i].id;
                let m1 = if m == ka { kb as int } else if m == kb { ka as int } else { m };
                assert(ob[m1] == tasks[i].id);
            }
        }
        Ok(())
    }
}

} // verus!
