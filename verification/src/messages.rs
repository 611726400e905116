use crate::registry::{active_ids, lemma_active_flip, lemma_active_none, lemma_active_same};
use crate::scheduler::{active_count, deps_done, lemma_count_change};
use crate::state::{bumped, next_generation, same_records, task_with_id, State};
use crate::task::{Error, Task, TaskStatus};
use crate::transitions::{lemma_position, lemma_wf_kept, position, task_in, task_started};
use vstd::prelude::*;

verus! {

/// What pausing everything makes of one task.
pub open spec fn task_paused(t: Task, wait: bool) -> Task {
    if t.status is Running && !wait {
        task_in(t, TaskStatus::Paused)
    } else {
        t
    }
}

/// What resuming everything makes of one task.
pub open spec fn task_resumed(t: Task) -> Task {
    if t.status is Paused {
        task_in(t, TaskStatus::Running)
    } else {
        t
    }
}

impl State {
    /// The status of the task with this id.
    pub open spec fn status_of(self, id: usize) -> TaskStatus {
        self.tasks@[position(self.tasks@, id)].status
    }

    /// The store with the task of this id replaced.
    pub open spec fn with_task(self, id: usize, task: Task) -> Seq<Task> {
        self.tasks@.update(position(self.tasks@, id), task)
    }

    /// The task with this id as the store holds it.
    pub open spec fn task_of(self, id: usize) -> Task {
        self.tasks@[position(self.tasks@, id)]
    }

    /// Starts a waiting task by request, whatever its group's limit says.
    /// A task that is being edited, or one with a dependency that has not
    /// ended well, is not started. The caller spawns the child, and reports
    /// a failure with `finish`.
    pub fn start_task(&mut self, id: usize, now: u64) -> (r: Result<(), Error>)
        requires
            old(self).wf(),
        ensures
            final(self).wf(),
            r == if !task_with_id(old(self).tasks@, id) {
                Err::<(), Error>(Error::NotFound)
            } else if !old(self).status_of(id).is_waiting() || old(self).task_of(id).editing
                || !deps_done(old(self).tasks@, position(old(self).tasks@, id)) {
                Err::<(), Error>(Error::WrongState)
            } else {
                Ok::<(), Error>(())
            },
            r is Err ==> *final(self) == *old(self),
            r is Ok ==> final(self).tasks@ == old(self).with_task(
                id,
                task_started(old(self).task_of(id), now),
            ) && final(self).same_frame(*old(self)) && final(self).generation == bumped(
                old(self).generation,
            ) && active_ids(final(self).tasks@) == active_ids(old(self).tasks@).insert(id),
    {
        match self.find_task(id) {
            None => Err(Error::NotFound),
            Some(p) => {
                proof {
                    lemma_position(*old(self), p as int);
                }
                if !self.tasks[p].status.waiting() || self.tasks[p].editing
                    || !self.dependencies_done(p) {
                    return Err(Error::WrongState);
                }
                self.tasks[p].status = TaskStatus::Running;
                self.tasks[p].start = Some(now);
                self.generation = next_generation(self.generation);
                proof {
                    assert(self.tasks@ =~= old(self).with_task(
                        id,
                        task_started(old(self).task_of(id), now),
                    ));
                    lemma_wf_kept(*old(self), *self);
                    lemma_active_flip(old(self).tasks@, self.tasks@, p as int);
                }
                Ok(())
            },
        }
    }

    /// Marks a running task `Paused`. The caller sends the stop signal.
    pub fn pause_task(&mut self, id: usize) -> (r: Result<(), Error>)
        requires
            old(self).wf(),
        ensures
            final(self).wf(),
            r == if !task_with_id(old(self).tasks@, id) {
                Err::<(), Error>(Error::NotFound)
            } else if !(old(self).status_of(id) is Running) {
                Err::<(), Error>(Error::WrongState)
            } else {
                Ok::<(), Error>(())
            },
            r is Err ==> *final(self) == *old(self),
            r is Ok ==> final(self).tasks@ == old(self).with_task(
                id,
                task_in(old(self).task_of(id), TaskStatus::Paused),
            ) && final(self).same_frame(*old(self)) && final(self).generation == bumped(
                old(self).generation,
            ),
            old(self).within_limits() ==> final(self).within_limits(),
            active_ids(final(self).tasks@) == active_ids(old(self).tasks@),
    {
        match self.find_task(id) {
            None => Err(Error::NotFound),
            Some(p) => {
                proof {
                    lemma_position(*old(self), p as int);
                }
                if !self.tasks[p].status.running() {
                    return Err(Error::WrongState);
                }
                self.tasks[p].status = TaskStatus::Paused;
                self.generation = next_generation(self.generation);
                proof {
                    assert(self.tasks@ =~= old(self).with_task(
                        id,
                        task_in(old(self).task_of(id), TaskStatus::Paused),
                    ));
                    lemma_wf_kept(*old(self), *self);
                    lemma_active_same(old(self).tasks@, self.tasks@);
                    assert forall|group: Seq<char>|
                        active_count(self.tasks@, group) == active_count(
                            old(self).tasks@,
                            group,
                        ) by {
                        lemma_count_change(old(self).tasks@, self.tasks@, p as int, group);
                    }
                }
                Ok(())
            },
        }
    }

    /// Marks a paused task `Running` again. The caller sends the continue
    /// signal.
    pub fn resume_task(&mut self, id: usize) -> (r: Result<(), Error>)
        requires
            old(self).wf(),
        ensures
            final(self).wf(),
            r == if !task_with_id(old(self).tasks@, id) {
                Err::<(), Error>(Error::NotFound)
            } else if !(old(self).status_of(id) is Paused) {
                Err::<(), Error>(Error::WrongState)
            } else {
                Ok::<(), Error>(())
            },
            r is Err ==> *final(self) == *old(self),
            r is Ok ==> final(self).tasks@ == old(self).with_task(
                id,
                task_in(old(self).task_of(id), TaskStatus::Running),
            ) && final(self).same_frame(*old(self)) && final(self).generation == bumped(
                old(self).generation,
            ),
            old(self).within_limits() ==> final(self).within_limits(),
            active_ids(final(self).tasks@) == active_ids(old(self).tasks@),
    {
        match self.find_task(id) {
            None => Err(Error::NotFound),
            Some(p) => {
                proof {
                    lemma_position(*old(self), p as int);
                }
                if !self.tasks[p].status.paused() {
                    return Err(Error::WrongState);
                }
                self.tasks[p].status = TaskStatus::Running;
                self.generation = next_generation(self.generation);
                proof {
                    assert(self.tasks@ =~= old(self).with_task(
                        id,
                        task_in(old(self).task_of(id), TaskStatus::Running),
                    ));
                    lemma_wf_kept(*old(self), *self);
                    lemma_active_same(old(self).tasks@, self.tasks@);
                    assert forall|group: Seq<char>|
                        active_count(self.tasks@, group) == active_count(
                            old(self).tasks@,
                            group,
                        ) by {
                        lemma_count_change(old(self).tasks@, self.tasks@, p as int, group);
                    }
                }
                Ok(())
            },
        }
    }

    /// Tells whether a kill signal may go to the task: it must be running
    /// or paused. The task ends as `Killed` when its child is reaped.
    pub fn can_kill(&self, id: usize) -> (r: Result<(), Error>)
        requires
            self.wf(),
        ensures
            r == if !task_with_id(self.tasks@, id) {
                Err::<(), Error>(Error::NotFound)
            } else if !self.status_of(id).is_active() {
                Err::<(), Error>(Error::WrongState)
            } else {
                Ok::<(), Error>(())
            },
    {
        match self.find_task(id) {
            None => Err(Error::NotFound),
            Some(p) => {
                proof {
                    lemma_position(*self, p as int);
                }
                if self.tasks[p].status.active() {
                    Ok(())
                } else {
                    Err(Error::WrongState)
                }
            },
        }
    }

    /// Tells whether input may be written to the task's child: it must be
    /// running.
    pub fn can_send(&self, id: usize) -> (r: Result<(), Error>)
        requires
            self.wf(),
        ensures
            r == if !task_with_id(self.tasks@, id) {
                Err::<(), Error>(Error::NotFound)
            } else if !(self.status_of(id) is Running) {
                Err::<(), Error>(Error::WrongState)
            } else {
                Ok::<(), Error>(())
            },
    {
        match self.find_task(id) {
            None => Err(Error::NotFound),
            Some(p) => {
                proof {
                    lemma_position(*self, p as int);
                }
                if self.tasks[p].status.running() {
                    Ok(())
                } else {
                    Err(Error::WrongState)
                }
            },
        }
    }

    /// Pauses the daemon: no new task is spawned. Unless `wait` is set,
    /// every running task is marked `Paused` too.
    pub fn pause_all(&mut self, wait: bool)
        requires
            old(self).wf(),
        ensures
            final(self).wf(),
            final(self).tasks@.len() == old(self).tasks@.len(),
            forall|i: int|
                0 <= i < old(self).tasks@.len() ==> #[trigger] final(self).tasks@[i]
                    == task_paused(old(self).tasks@[i], wait),
            final(self).groups == old(self).groups,
            final(self).order == old(self).order,
            final(self).next_id == old(self).next_id,
            final(self).shutting_down == old(self).shutting_down,
            !final(self).running,
            final(self).generation == bumped(old(self).generation),
            forall|j: int| !final(self).eligible(j),
            old(self).within_limits() ==> final(self).within_limits(),
            active_ids(final(self).tasks@) == active_ids(old(self).tasks@),
    {
        let n = self.tasks.len();
        let mut i: usize = 0;
        while i < n
            invariant
                i <= n,
                n == old(self).tasks@.len(),
                n == self.tasks@.len(),
                self.same_frame(*old(self)),
                self.generation == old(self).generation,
                forall|j: int| i <= j < n ==> self.tasks@[j] == old(self).tasks@[j],
                forall|j: int|
                    0 <= j < i ==> #[trigger] self.tasks@[j] == task_paused(
                        old(self).tasks@[j],
                        wait,
                    ),
            decreases n - i,
        {
            if !wait && self.tasks[i].status.running() {
                self.tasks[i].status = TaskStatus::Paused;
            }
            i += 1;
        }
        self.running = false;
        self.generation = next_generation(self.generation);
        proof {
            let a = old(self).tasks@;
            let b = self.tasks@;
            assert(same_records(a, b));
            lemma_wf_kept(*old(self), *self);
            lemma_active_same(a, b);
            assert forall|group: Seq<char>| active_count(b, group) == active_count(a, group) by {
                lemma_count_change(a, b, -1, group);
            }
        }
    }

    /// Resumes the daemon: tasks are spawned again, and every paused task
    /// is marked `Running`.
    pub fn resume_all(&mut self)
        requires
            old(self).wf(),
        ensures
            final(self).wf(),
            final(self).tasks@.len() == old(self).tasks@.len(),
            forall|i: int|
                0 <= i < old(self).tasks@.len() ==> #[trigger] final(self).tasks@[i]
                    == task_resumed(old(self).tasks@[i]),
            final(self).groups == old(self).groups,
            final(self).order == old(self).order,
            final(self).next_id == old(self).next_id,
            final(self).shutting_down == old(self).shutting_down,
            final(self).running,
            final(self).generation == bumped(old(self).generation),
            old(self).within_limits() ==> final(self).within_limits(),
            active_ids(final(self).tasks@) == active_ids(old(self).tasks@),
    {
        let n = self.tasks.len();
        let mut i: usize = 0;
        while i < n
            invariant
                i <= n,
                n == old(self).tasks@.len(),
                n == self.tasks@.len(),
                self.same_frame(*old(self)),
                self.generation == old(self).generation,
                forall|j: int| i <= j < n ==> self.tasks@[j] == old(self).tasks@[j],
                forall|j: int|
                    0 <= j < i ==> #[trigger] self.tasks@[j] == task_resumed(
                        old(self).tasks@[j],
                    ),
            decreases n - i,
        {
            if self.tasks[i].status.paused() {
                self.tasks[i].status = TaskStatus::Running;
            }
            i += 1;
        }
        self.running = true;
        self.generation = next_generation(self.generation);
        proof {
            let a = old(self).tasks@;
            let b = self.tasks@;
            assert(same_records(a, b));
            lemma_wf_kept(*old(self), *self);
            lemma_active_same(a, b);
            assert forall|group: Seq<char>| active_count(b, group) == active_count(a, group) by {
                lemma_count_change(a, b, -1, group);
            }
        }
    }

    /// Drops every task record. The caller has killed the children first.
    /// Ids already handed out are not handed out again.
    pub fn reset(&mut self)
        requires
            old(self).wf(),
        ensures
            final(self).wf(),
            final(self).within_limits(),
            active_ids(final(self).tasks@) == Set::<usize>::empty(),
            final(self).tasks@.len() == 0,
            final(self).order@.len() == 0,
            final(self).groups == old(self).groups,
            final(self).running == old(self).running,
            final(self).shutting_down == old(self).shutting_down,
            final(self).next_id == old(self).next_id,
            final(self).generation == bumped(old(self).generation),
    {
        self.tasks.clear();
        self.order.clear();
        self.generation = next_generation(self.generation);
        proof {
            lemma_active_none(self.tasks@);
        }
    }

    /// Begins the shutdown of the daemon: nothing is spawned and nothing
    /// is accepted any more.
    pub fn begin_shutdown(&mut self)
        requires
            old(self).wf(),
        ensures
            final(self).wf(),
            final(self).tasks == old(self).tasks,
            final(self).order == old(self).order,
            final(self).groups == old(self).groups,
            final(self).order == old(self).order,
            final(self).next_id == old(self).next_id,
            !final(self).running,
            final(self).shutting_down,
            final(self).generation == bumped(old(self).generation),
            forall|j: int| !final(self).eligible(j),
    {
        self.running = false;
        self.shutting_down = true;
        self.generation = next_generation(self.generation);
    }

    /// Tells whether the daemon may exit: a shutdown has begun and the last
    /// child has been reaped.
    pub fn shutdown_complete(&self) -> (r: bool)
        ensures
            r == (self.shutting_down && forall|i: int|
                0 <= i < self.tasks@.len() ==> !(#[trigger] self.tasks@[i]).status.is_active()),
    {
        if !self.shutting_down {
            return false;
        }
        let mut i: usize = 0;
        while i < self.tasks.len()
            invariant
                i <= self.tasks@.len(),
                forall|j: int| 0 <= j < i ==> !(#[trigger] self.tasks@[j]).status.is_active(),
            decreases self.tasks@.len() - i,
        {
            if self.tasks[i].status.active() {
                return false;
            }
            i += 1;
        }
        true
    }

    /// Tells whether the store has changed since the generation that was
    /// last written to disk.
    pub fn needs_flush(&self, persisted: u64) -> (r: bool)
        ensures
            r == (self.generation != persisted),
    {
        self.generation != persisted
    }
}

} // verus!
