use crate::registry::{active_ids, lemma_active_flip, lemma_active_none, lemma_active_same};
use crate::scheduler::{active_count, has_failed_dep, holds_slot, lemma_count_change};
use crate::state::{bumped, next_generation, same_records, task_with_id, State};
use crate::task::{Error, Task, TaskResult, TaskStatus};
use vstd::prelude::*;

verus! {

/// The position of the task with this id.
pub open spec fn position(tasks: Seq<Task>, id: usize) -> int {
    choose|i: int| 0 <= i < tasks.len() && (#[trigger] tasks[i]).id == id
}

/// The task once its child has been started at time `now`.
pub open spec fn task_started(t: Task, now: u64) -> Task {
    Task { status: TaskStatus::Running, start: Some(now), ..t }
}

/// The task once it has ended at time `now`.
pub open spec fn task_ended(t: Task, result: TaskResult, now: u64) -> Task {
    Task { status: TaskStatus::Done(result), end: Some(now), ..t }
}

/// The task with another status and nothing else changed.
pub open spec fn task_in(t: Task, status: TaskStatus) -> Task {
    Task { status, ..t }
}

/// What the dependency pass makes of one task.
pub open spec fn cascade_one(t: Task, failed: bool, now: u64) -> Task {
    if t.status.is_waiting() && failed {
        task_ended(t, TaskResult::DependencyFailed, now)
    } else {
        t
    }
}

/// `after` is `before` with every waiting task ended as `DependencyFailed`
/// that has, in `after`, a dependency which ended and not well. Since a
/// dependency is always an earlier task, this fixes `after`.
pub open spec fn cascaded(before: Seq<Task>, after: Seq<Task>, now: u64) -> bool {
    &&& before.len() == after.len()
    &&& forall|i: int|
        0 <= i < before.len() ==> #[trigger] after[i] == cascade_one(
            before[i],
            has_failed_dep(after, i),
            now,
        )
}

/// What a restart makes of one task: its child is gone.
pub open spec fn task_recovered(t: Task) -> Task {
    if t.status.is_active() {
        task_in(t, TaskStatus::Done(TaskResult::Killed))
    } else {
        t
    }
}

/// What the promotion pass makes of one task at time `now`.
pub open spec fn task_promoted(t: Task, now: u64) -> Task {
    if t.status is Locked && t.enqueue_at is Some && t.enqueue_at->0 <= now {
        task_in(t, TaskStatus::Queued)
    } else {
        t
    }
}

/// The store's invariants do not depend on status, timestamps or edit flags.
pub proof fn lemma_wf_kept(a: State, b: State)
    requires
        a.wf(),
        same_records(a.tasks@, b.tasks@),
        b.groups == a.groups,
        b.order == a.order,
        b.next_id == a.next_id,
    ensures
        b.wf(),
{
    let s = a.tasks@;
    let t = b.tasks@;
    assert forall|i: int, j: int| 0 <= i < j < t.len() implies (#[trigger] t[i]).id < (
    #[trigger] t[j]).id by {
        assert(s[i].same_record(t[i]));
        assert(s[j].same_record(t[j]));
    }
    assert forall|i: int| 0 <= i < t.len() implies (#[trigger] t[i]).id < b.next_id by {
        assert(s[i].same_record(t[i]));
    }
    assert forall|i: int| 0 <= i < t.len() implies crate::state::group_named(
        b.groups@,
        (#[trigger] t[i]).group@,
    ) by {
        assert(s[i].same_record(t[i]));
    }
    assert forall|i: int, k: int|
        0 <= i < t.len() && 0 <= k < t[i].dependencies@.len() implies (
    #[trigger] t[i].dependencies@[k]) < t[i].id by {
        assert(s[i].same_record(t[i]));
        assert(s[i].dependencies@[k] < s[i].id);
    }
    assert forall|k: int| 0 <= k < b.order@.len() implies task_with_id(
        t,
        #[trigger] b.order@[k],
    ) by {
        assert(task_with_id(s, a.order@[k]));
        let i = choose|i: int| 0 <= i < s.len() && (#[trigger] s[i]).id == a.order@[k];
        assert(s[i].same_record(t[i]));
    }
    assert forall|i: int| 0 <= i < t.len() implies b.order@.contains((#[trigger] t[i]).id) by {
        assert(s[i].same_record(t[i]));
        assert(a.order@.contains(s[i].id));
    }
}

/// In a well-formed store an id names one position.
pub proof fn lemma_position(s: State, p: int)
    requires
        s.wf(),
        0 <= p < s.tasks@.len(),
    ensures
        position(s.tasks@, s.tasks@[p].id) == p,
        task_with_id(s.tasks@, s.tasks@[p].id),
{
    let q = position(s.tasks@, s.tasks@[p].id);
    assert(s.tasks@[q].id == s.tasks@[p].id);
    if q < p {
        assert(s.tasks@[q].id < s.tasks@[p].id);
    }
    if p < q {
        assert(s.tasks@[p].id < s.tasks@[q].id);
    }
}

/// Whether a dependency of a task failed depends on the earlier tasks alone.
pub proof fn lemma_failed_dep_prefix(a: Seq<Task>, b: Seq<Task>, i: int)
    requires
        a.len() == b.len(),
        0 <= i < a.len(),
        forall|m: int| 0 <= m < i ==> a[m] == b[m],
        a[i].dependencies == b[i].dependencies,
    ensures
        has_failed_dep(a, i) == has_failed_dep(b, i),
{
    if has_failed_dep(a, i) {
        let j = choose|j: int|
            0 <= j < i && (#[trigger] a[j]).status.is_failure() && a[i].dependencies@.contains(
                a[j].id,
            );
        assert(b[j] == a[j]);
    }
    if has_failed_dep(b, i) {
        let j = choose|j: int|
            0 <= j < i && (#[trigger] b[j]).status.is_failure() && b[i].dependencies@.contains(
                b[j].id,
            );
        assert(b[j] == a[j]);
    }
}

impl State {
    /// Everything but the tasks and the generation is as in `other`.
    pub open spec fn same_frame(self, other: State) -> bool {
        &&& self.groups == other.groups
        &&& self.order == other.order
        &&& self.running == other.running
        &&& self.shutting_down == other.shutting_down
        &&& self.next_id == other.next_id
    }

    /// Position `i` holds the eligible task with the least id.
    pub open spec fn first_eligible(self, i: int) -> bool {
        self.eligible(i) && forall|j: int| 0 <= j < i ==> !self.eligible(j)
    }

    /// Picks the eligible task with the least id, if there is one, marks it
    /// `Running` with start time `now`, and returns its id. The caller
    /// spawns the child, and reports a failure to do so with `finish`.
    pub fn spawn_next(&mut self, now: u64) -> (r: Option<usize>)
        requires
            old(self).wf(),
        ensures
            final(self).wf(),
            old(self).within_limits() ==> final(self).within_limits(),
            match r {
                None => *final(self) == *old(self) && forall|j: int| !old(self).eligible(j),
                Some(id) => task_with_id(old(self).tasks@, id) && old(self).first_eligible(
                    position(old(self).tasks@, id),
                ) && final(self).tasks@ == old(self).tasks@.update(
                    position(old(self).tasks@, id),
                    task_started(old(self).tasks@[position(old(self).tasks@, id)], now),
                ) && final(self).same_frame(*old(self)) && final(self).generation == bumped(
                    old(self).generation,
                ) && active_ids(final(self).tasks@) == active_ids(old(self).tasks@).insert(id),
            },
    {
        match self.next_to_spawn() {
            None => None,
            Some(p) => {
                let id = self.tasks[p].id;
                self.tasks[p].status = TaskStatus::Running;
                self.tasks[p].start = Some(now);
                self.generation = next_generation(self.generation);
                proof {
                    lemma_position(*old(self), p as int);
                    assert(self.tasks@ =~= old(self).tasks@.update(
                        p as int,
                        task_started(old(self).tasks@[p as int], now),
                    ));
                    lemma_wf_kept(*old(self), *self);
                    lemma_active_flip(old(self).tasks@, self.tasks@, p as int);
                    if old(self).within_limits() {
                        crate::laws::spawning_keeps_limits(*old(self), p as int, now);
                    }
                }
                Some(id)
            },
        }
    }

    fn cascade(&mut self, now: u64) -> (changed: bool)
        requires
            old(self).wf(),
        ensures
            final(self).wf(),
            cascaded(old(self).tasks@, final(self).tasks@, now),
            changed == (final(self).tasks@ != old(self).tasks@),
            final(self).same_frame(*old(self)),
            final(self).generation == old(self).generation,
            active_ids(final(self).tasks@) == active_ids(old(self).tasks@),
            forall|group: Seq<char>|
                active_count(final(self).tasks@, group) == active_count(old(self).tasks@, group),
    {
        let n = self.tasks.len();
        let mut changed = false;
        let mut i: usize = 0;
        while i < n
            invariant
                i <= n,
                n == old(self).tasks@.len(),
                n == self.tasks@.len(),
                self.same_frame(*old(self)),
                self.generation == old(self).generation,
                changed == (self.tasks@ != old(self).tasks@),
                forall|j: int| i <= j < n ==> self.tasks@[j] == old(self).tasks@[j],
                forall|j: int|
                    0 <= j < i ==> #[trigger] self.tasks@[j] == cascade_one(
                        old(self).tasks@[j],
                        has_failed_dep(self.tasks@, j),
                        now,
                    ),
            decreases n - i,
        {
            let ghost before = self.tasks@;
            if self.tasks[i].status.waiting() && self.failed_dependency(i) {
                self.tasks[i].status = TaskStatus::Done(TaskResult::DependencyFailed);
                self.tasks[i].end = Some(now);
                changed = true;
                proof {
                    assert(self.tasks@[i as int] != old(self).tasks@[i as int]);
                }
            } else {
                proof {
                    assert(self.tasks@ =~= before);
                }
            }
            proof {
                assert forall|j: int| 0 <= j <= i implies #[trigger] self.tasks@[j] == cascade_one(
                    old(self).tasks@[j],
                    has_failed_dep(self.tasks@, j),
                    now,
                ) by {
                    lemma_failed_dep_prefix(before, self.tasks@, j);
                }
            }
            i += 1;
        }
        proof {
            let a = old(self).tasks@;
            let b = self.tasks@;
            assert(same_records(a, b));
            lemma_wf_kept(*old(self), *self);
            lemma_active_same(a, b);
            assert forall|group: Seq<char>| active_count(b, group) == active_count(a, group) by {
                lemma_count_change(a, b, -1, group);
            }
        }
        changed
    }

    /// The dependency pass of a tick: every waiting task with a dependency
    /// that ended, and not well, ends as `DependencyFailed`, its dependants
    /// with it.
    pub fn fail_dependants(&mut self, now: u64)
        requires
            old(self).wf(),
        ensures
            final(self).wf(),
            cascaded(old(self).tasks@, final(self).tasks@, now),
            final(self).same_frame(*old(self)),
            final(self).generation == if final(self).tasks@ == old(self).tasks@ {
                old(self).generation
            } else {
                bumped(old(self).generation)
            },
            old(self).within_limits() ==> final(self).within_limits(),
            active_ids(final(self).tasks@) == active_ids(old(self).tasks@),
    {
        if self.cascade(now) {
            self.generation = next_generation(self.generation);
        }
    }

    /// Records the end of a running or paused task and lets its failure,
    /// if it is one, reach the tasks that wait for it.
    pub fn finish(&mut self, id: usize, result: TaskResult, now: u64) -> (r: Result<(), Error>)
        requires
            old(self).wf(),
        ensures
            final(self).wf(),
            r == if !task_with_id(old(self).tasks@, id) {
                Err::<(), Error>(Error::NotFound)
            } else if !old(self).tasks@[position(old(self).tasks@, id)].status.is_active() {
                Err::<(), Error>(Error::WrongState)
            } else {
                Ok::<(), Error>(())
            },
            r is Err ==> *final(self) == *old(self),
            r is Ok ==> cascaded(
                old(self).tasks@.update(
                    position(old(self).tasks@, id),
                    task_ended(old(self).tasks@[position(old(self).tasks@, id)], result, now),
                ),
                final(self).tasks@,
                now,
            ) && final(self).same_frame(*old(self)) && final(self).generation == bumped(
                old(self).generation,
            ),
            old(self).within_limits() ==> final(self).within_limits(),
            r is Ok ==> active_ids(final(self).tasks@) == active_ids(old(self).tasks@).remove(id),
    {
        match self.find_task(id) {
            None => Err(Error::NotFound),
            Some(p) => {
                proof {
                    lemma_position(*old(self), p as int);
                }
                if !self.tasks[p].status.active() {
                    return Err(Error::WrongState);
                }
                self.tasks[p].status = TaskStatus::Done(result);
                self.tasks[p].end = Some(now);
                self.generation = next_generation(self.generation);
                proof {
                    assert(self.tasks@ =~= old(self).tasks@.update(
                        p as int,
                        task_ended(old(self).tasks@[p as int], result, now),
                    ));
                    lemma_wf_kept(*old(self), *self);
                    lemma_active_flip(old(self).tasks@, self.tasks@, p as int);
                    assert forall|group: Seq<char>|
                        active_count(self.tasks@, group) <= active_count(
                            old(self).tasks@,
                            group,
                        ) by {
                        lemma_count_change(old(self).tasks@, self.tasks@, p as int, group);
                    }
                }
                self.cascade(now);
                Ok(())
            },
        }
    }
}

/// A group of which no task holds a slot has a count of zero.
pub proof fn lemma_count_idle(tasks: Seq<Task>, group: Seq<char>)
    requires
        forall|i: int| 0 <= i < tasks.len() ==> !holds_slot(#[trigger] tasks[i], group),
    ensures
        active_count(tasks, group) == 0,
    decreases tasks.len(),
{
    if tasks.len() > 0 {
        let t = tasks.drop_last();
        assert forall|i: int| 0 <= i < t.len() implies !holds_slot(#[trigger] t[i], group) by {
            assert(t[i] == tasks[i]);
        }
        lemma_count_idle(t, group);
        assert(!holds_slot(tasks[tasks.len() - 1], group));
    }
}

impl State {
    /// The promotion pass of a tick: every `Locked` task whose time has
    /// come becomes `Queued`.
    pub fn promote_locked(&mut self, now: u64)
        requires
            old(self).wf(),
        ensures
            final(self).wf(),
            final(self).tasks@.len() == old(self).tasks@.len(),
            forall|i: int|
                0 <= i < old(self).tasks@.len() ==> #[trigger] final(self).tasks@[i]
                    == task_promoted(old(self).tasks@[i], now),
            final(self).same_frame(*old(self)),
            final(self).generation == if final(self).tasks@ == old(self).tasks@ {
                old(self).generation
            } else {
                bumped(old(self).generation)
            },
            old(self).within_limits() ==> final(self).within_limits(),
            active_ids(final(self).tasks@) == active_ids(old(self).tasks@),
    {
        let n = self.tasks.len();
        let mut changed = false;
        let mut i: usize = 0;
        while i < n
            invariant
                i <= n,
                n == old(self).tasks@.len(),
                n == self.tasks@.len(),
                self.same_frame(*old(self)),
                self.generation == old(self).generation,
                changed == (self.tasks@ != old(self).tasks@),
                forall|j: int| i <= j < n ==> self.tasks@[j] == old(self).tasks@[j],
                forall|j: int|
                    0 <= j < i ==> #[trigger] self.tasks@[j] == task_promoted(
                        old(self).tasks@[j],
                        now,
                    ),
            decreases n - i,
        {
            let ghost before = self.tasks@;
            let due = match self.tasks[i].enqueue_at {
                Some(t) => t <= now,
                None => false,
            };
            if self.tasks[i].status.locked() && due {
                self.tasks[i].status = TaskStatus::Queued;
                changed = true;
                proof {
                    assert(self.tasks@[i as int] != old(self).tasks@[i as int]);
                }
            } else {
                proof {
                    assert(self.tasks@ =~= before);
                }
            }
            i += 1;
        }
        if changed {
            self.generation = next_generation(self.generation);
        }
        proof {
            let a = old(self).tasks@;
            let b = self.tasks@;
            assert(same_records(a, b));
            lemma_wf_kept(*old(self), *self);
            lemma_active_same(a, b);
            assert forall|group: Seq<char>| active_count(b, group) == active_count(a, group) by {
                lemma_count_change(a, b, -1, group);
            }
        }
    }

    /// Recovery after a restart: the children of the last run are gone, so
    /// every running or paused task ends as `Killed`; all else stays, and
    /// the daemon runs again.
    pub fn recover(&mut self)
        requires
            old(self).wf(),
        ensures
            final(self).wf(),
            final(self).within_limits(),
            active_ids(final(self).tasks@) == Set::<usize>::empty(),
            final(self).tasks@.len() == old(self).tasks@.len(),
            forall|i: int|
                0 <= i < old(self).tasks@.len() ==> #[trigger] final(self).tasks@[i]
                    == task_recovered(old(self).tasks@[i]),
            final(self).groups == old(self).groups,
            final(self).order == old(self).order,
            final(self).next_id == old(self).next_id,
            final(self).running,
            !final(self).shutting_down,
            final(self).generation == bumped(old(self).generation),
    {
        let n = self.tasks.len();
        let mut i: usize = 0;
        while i < n
            invariant
                i <= n,
                n == old(self).tasks@.len(),
                n == self.tasks@.len(),
                self.same_frame(*old(self)),
                self.generation == old(self).generation,
                forall|j: int| i <= j < n ==> self.tasks@[j] == old(self).tasks@[j],
                forall|j: int|
                    0 <= j < i ==> #[trigger] self.tasks@[j] == task_recovered(
                        old(self).tasks@[j],
                    ),
            decreases n - i,
        {
            if self.tasks[i].status.active() {
                self.tasks[i].status = TaskStatus::Done(TaskResult::Killed);
            }
            i += 1;
        }
        self.running = true;
        self.shutting_down = false;
        self.generation = next_generation(self.generation);
        proof {
            let a = old(self).tasks@;
            let b = self.tasks@;
            assert(same_records(a, b));
            lemma_wf_kept(*old(self), *self);
            lemma_active_none(b);
            assert forall|g: int| 0 <= g < self.groups@.len() implies active_count(
                b,
                (#[trigger] self.groups@[g]).name@,
            ) <= self.groups@[g].limit by {
                lemma_count_idle(b, self.groups@[g].name@);
            }
        }
    }
}

} // verus!
