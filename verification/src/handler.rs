use crate::registry::{active_ids, is_active_id};
use crate::scheduler::deps_done;
use crate::state::{bumped, task_with_id, State};
use crate::task::{Error, TaskResult};
use crate::transitions::{cascaded, position, task_ended, task_recovered, task_started};
use vstd::prelude::*;

verus! {

/// The handler's book of live children: the ids of the tasks whose child
/// process it owns. The process handles themselves are kept, by these ids,
/// by whoever spawns and reaps.
#[derive(Clone, Debug, PartialEq, Eq)]
pub struct TaskHandler {
    pub children: Vec<usize>,
}

impl View for TaskHandler {
    type V = Set<usize>;

    open spec fn view(&self) -> Set<usize> {
        Set::new(|id: usize| self.children@.contains(id))
    }
}

impl TaskHandler {
    /// No id is listed twice.
    pub open spec fn wf(self) -> bool {
        forall|i: int, j: int|
            0 <= i < j < self.children@.len() ==> self.children@[i] != self.children@[j]
    }

    /// The book lists exactly the running and the paused tasks of the store.
    pub open spec fn tracks(self, state: State) -> bool {
        self.wf() && self@ == active_ids(state.tasks@)
    }

    /// A handler without children.
    pub fn new() -> (h: TaskHandler)
        ensures
            h.wf(),
            h@ == Set::<usize>::empty(),
    {
        let h = TaskHandler { children: Vec::new() };
        proof {
            assert(h@ =~= Set::<usize>::empty());
        }
        h
    }

    fn index_of(&self, id: usize) -> (r: Option<usize>)
        ensures
            match r {
                Some(k) => k < self.children@.len() && self.children@[k as int] == id,
                None => !self.children@.contains(id),
            },
    {
        let mut k: usize = 0;
        while k < self.children.len()
            invariant
                k <= self.children@.len(),
                forall|m: int| 0 <= m < k ==> self.children@[m] != id,
            decreases self.children@.len() - k,
        {
            if self.children[k] == id {
                return Some(k);
            }
            k += 1;
        }
        None
    }

    /// Tells whether the book lists the task with this id.
    pub fn has_child(&self, id: usize) -> (r: bool)
        ensures
            r == self@.contains(id),
    {
        self.index_of(id).is_some()
    }

    /// How many children the handler owns.
    pub fn child_count(&self) -> (n: usize)
        ensures
            n == self.children@.len(),
    {
        self.children.len()
    }

    /// Enters the child of a task into the book.
    pub fn register(&mut self, id: usize)
        requires
            old(self).wf(),
        ensures
            final(self).wf(),
            final(self)@ == old(self)@.insert(id),
    {
        if self.index_of(id).is_none() {
            self.children.push(id);
            proof {
                let a = old(self).children@;
                let b = self.children@;
                assert forall|x: usize| b.contains(x) == (a.contains(x) || x == id) by {
                    if a.contains(x) {
                        let m = choose|m: int| 0 <= m < a.len() && a[m] == x;
                        assert(b[m] == x);
                    }
                    if x == id {
                        assert(b[a.len() as int] == x);
                    }
                }
            }
        }
        proof {
            assert(self@ =~= old(self)@.insert(id));
        }
    }

    /// Strikes the child of a task from the book.
    pub fn unregister(&mut self, id: usize)
        requires
            old(self).wf(),
        ensures
            final(self).wf(),
            final(self)@ == old(self)@.remove(id),
    {
        match self.index_of(id) {
            None => {},
            Some(k) => {
                self.children.remove(k);
                proof {
                    let a = old(self).children@;
                    let b = self.children@;
                    assert forall|x: usize| b.contains(x) == (a.contains(x) && x != id) by {
                        if b.contains(x) {
                            let m = choose|m: int| 0 <= m < b.len() && b[m] == x;
                            let m0 = if m < k { m } else { m + 1 };
                            assert(a[m0] == x);
                            if m0 < k {
                                assert(a[m0] != a[k as int]);
                            } else {
                                assert(a[k as int] != a[m0]);
                            }
                        }
                        if a.contains(x) && x != id {
                            let m = choose|m: int| 0 <= m < a.len() && a[m] == x;
                            let m1 = if m < k { m } else { m - 1 };
                            assert(b[m1] == x);
                        }
                    }
                }
            },
        }
        proof {
            assert(self@ =~= old(self)@.remove(id));
        }
    }

    /// The spawn step of a tick, for one task: the store picks the eligible
    /// task with the least id and marks it `Running`, and the book gets its
    /// id. The caller spawns the child for the id that comes back, and
    /// reports a failure to do so with `reap`.
    pub fn spawn_next(&mut self, state: &mut State, now: u64) -> (r: Option<usize>)
        requires
            old(state).wf(),
            old(self).tracks(*old(state)),
        ensures
            final(state).wf(),
            final(self).tracks(*final(state)),
            old(state).within_limits() ==> final(state).within_limits(),
            match r {
                None => *final(state) == *old(state) && *final(self) == *old(self) && forall|
                    j: int,
                | !old(state).eligible(j),
                Some(id) => task_with_id(old(state).tasks@, id) && old(state).first_eligible(
                    position(old(state).tasks@, id),
                ) && final(state).tasks@ == old(state).tasks@.update(
                    position(old(state).tasks@, id),
                    task_started(old(state).tasks@[position(old(state).tasks@, id)], now),
                ) && final(state).same_frame(*old(state)) && final(state).generation == bumped(
                    old(state).generation,
                ) && final(self)@ == old(self)@.insert(id) && !old(self)@.contains(id),
            },
    {
        match state.spawn_next(now) {
            None => None,
            Some(id) => {
                proof {
                    if is_active_id(old(state).tasks@, id) {
                        let q = choose|q: int|
                            0 <= q < old(state).tasks@.len() && (#[trigger] old(
                                state,
                            ).tasks@[q]).id == id && old(state).tasks@[q].status.is_active();
                        crate::transitions::lemma_position(*old(state), q);
                    }
                }
                self.register(id);
                Some(id)
            },
        }
    }

    /// Starts a waiting task by request and enters it into the book. A task
    /// that is being edited, or one with a dependency that has not ended
    /// well, is not started.
    pub fn start(&mut self, state: &mut State, id: usize, now: u64) -> (r: Result<(), Error>)
        requires
            old(state).wf(),
            old(self).tracks(*old(state)),
        ensures
            final(state).wf(),
            final(self).tracks(*final(state)),
            r == if !task_with_id(old(state).tasks@, id) {
                Err::<(), Error>(Error::NotFound)
            } else if !old(state).status_of(id).is_waiting() || old(state).task_of(id).editing
                || !deps_done(old(state).tasks@, position(old(state).tasks@, id)) {
                Err::<(), Error>(Error::WrongState)
            } else {
                Ok::<(), Error>(())
            },
            r is Err ==> *final(state) == *old(state) && *final(self) == *old(self),
            r is Ok ==> final(state).tasks@ == old(state).with_task(
                id,
                task_started(old(state).task_of(id), now),
            ) && final(state).same_frame(*old(state)) && final(state).generation == bumped(
                old(state).generation,
            ) && final(self)@ == old(self)@.insert(id),
    {
        match state.start_task(id, now) {
            Err(e) => Err(e),
            Ok(()) => {
                self.register(id);
                Ok(())
            },
        }
    }

    /// The reap step of a tick, for one child that has exited (or could not
    /// be spawned): the task ends with `result`, its failure reaches the
    /// tasks that wait for it, and its id leaves the book.
    pub fn reap(&mut self, state: &mut State, id: usize, result: TaskResult, now: u64) -> (r:
        Result<(), Error>)
        requires
            old(state).wf(),
            old(self).tracks(*old(state)),
        ensures
            final(state).wf(),
            final(self).tracks(*final(state)),
            old(state).within_limits() ==> final(state).within_limits(),
            r == if !task_with_id(old(state).tasks@, id) {
                Err::<(), Error>(Error::NotFound)
            } else if !old(state).status_of(id).is_active() {
                Err::<(), Error>(Error::WrongState)
            } else {
                Ok::<(), Error>(())
            },
            r is Err ==> *final(state) == *old(state) && *final(self) == *old(self),
            r is Ok ==> cascaded(
                old(state).with_task(id, task_ended(old(state).task_of(id), result, now)),
                final(state).tasks@,
                now,
            ) && final(state).same_frame(*old(state)) && final(state).generation == bumped(
                old(state).generation,
            ) && final(self)@ == old(self)@.remove(id),
    {
        match state.finish(id, result, now) {
            Err(e) => Err(e),
            Ok(()) => {
                self.unregister(id);
                Ok(())
            },
        }
    }

    /// Forgets every child, after a `reset` of the store or a restart.
    pub fn clear(&mut self)
        ensures
            final(self).wf(),
            final(self)@ == Set::<usize>::empty(),
    {
        self.children.clear();
        proof {
            assert(self@ =~= Set::<usize>::empty());
        }
    }
}

impl State {
    /// Tells whether a running or paused task carries this id.
    pub fn has_active(&self, id: usize) -> (r: bool)
        ensures
            r == is_active_id(self.tasks@, id),
    {
        let mut i: usize = 0;
        while i < self.tasks.len()
            invariant
                i <= self.tasks@.len(),
                forall|j: int|
                    0 <= j < i ==> !((#[trigger] self.tasks@[j]).id == id
                        && self.tasks@[j].status.is_active()),
            decreases self.tasks@.len() - i,
        {
            if self.tasks[i].id == id && self.tasks[i].status.active() {
                return true;
            }
            i += 1;
        }
        false
    }
}

impl TaskHandler {
    fn no_duplicates(&self) -> (r: bool)
        ensures
            r == self.wf(),
    {
        let n = self.children.len();
        let mut j: usize = 0;
        while j < n
            invariant
                j <= n,
                n == self.children@.len(),
                forall|a: int, b: int| 0 <= a < b < j ==> self.children@[a] != self.children@[b],
            decreases n - j,
        {
            let mut i: usize = 0;
            while i < j
                invariant
                    i <= j < n,
                    n == self.children@.len(),
                    forall|a: int| 0 <= a < i ==> self.children@[a] != self.children@[j as int],
                decreases j - i,
            {
                if self.children[i] == self.children[j] {
                    return false;
                }
                i += 1;
            }
            j += 1;
        }
        true
    }

    /// Tells whether the book lists exactly the running and the paused
    /// tasks of the store.
    pub fn in_step(&self, state: &State) -> (r: bool)
        ensures
            r == self.tracks(*state),
    {
        if !self.no_duplicates() {
            return false;
        }
        let mut k: usize = 0;
        while k < self.children.len()
            invariant
                k <= self.children@.len(),
                forall|m: int| 0 <= m < k ==> is_active_id(state.tasks@, self.children@[m]),
            decreases self.children@.len() - k,
        {
            if !state.has_active(self.children[k]) {
                proof {
                    let id = self.children@[k as int];
                    assert(self@.contains(id));
                    assert(!active_ids(state.tasks@).contains(id));
                }
                return false;
            }
            k += 1;
        }
        let mut i: usize = 0;
        while i < state.tasks.len()
            invariant
                i <= state.tasks@.len(),
                forall|j: int|
                    0 <= j < i && (#[trigger] state.tasks@[j]).status.is_active()
                        ==> self.children@.contains(state.tasks@[j].id),
            decreases state.tasks@.len() - i,
        {
            if state.tasks[i].status.active() && self.index_of(state.tasks[i].id).is_none() {
                proof {
                    let id = state.tasks@[i as int].id;
                    assert(is_active_id(state.tasks@, id));
                    assert(active_ids(state.tasks@).contains(id));
                    assert(!self@.contains(id));
                }
                return false;
            }
            i += 1;
        }
        proof {
            assert forall|id: usize| self@.contains(id) == active_ids(state.tasks@).contains(
                id,
            ) by {
                if self.children@.contains(id) {
                    let m = choose|m: int| 0 <= m < self.children@.len() && self.children@[m] == id;
                    assert(is_active_id(state.tasks@, self.children@[m]));
                }
                if is_active_id(state.tasks@, id) {
                    let j = choose|j: int|
                        0 <= j < state.tasks@.len() && (#[trigger] state.tasks@[j]).id == id
                            && state.tasks@[j].status.is_active();
                    assert(self.children@.contains(state.tasks@[j].id));
                }
            }
            assert(self@ =~= active_ids(state.tasks@));
        }
        true
    }

    /// Drops every task record and every entry of the book, and returns the
    /// ids whose children the caller has to kill.
    pub fn reset(&mut self, state: &mut State) -> (killed: Vec<usize>)
        requires
            old(state).wf(),
        ensures
            final(state).wf(),
            final(self).tracks(*final(state)),
            final(state).within_limits(),
            final(state).tasks@.len() == 0,
            final(state).order@.len() == 0,
            final(state).groups == old(state).groups,
            final(state).running == old(state).running,
            final(state).shutting_down == old(state).shutting_down,
            final(state).next_id == old(state).next_id,
            final(state).generation == bumped(old(state).generation),
            final(self)@ == Set::<usize>::empty(),
            killed@ == old(self).children@,
    {
        state.reset();
        let mut killed: Vec<usize> = Vec::new();
        killed.append(&mut self.children);
        proof {
            assert(killed@ =~= old(self).children@);
            assert(self@ =~= Set::<usize>::empty());
        }
        killed
    }

    /// Recovery after a restart: the store ends every running or paused
    /// task as `Killed`, and the book is empty.
    pub fn recover(&mut self, state: &mut State)
        requires
            old(state).wf(),
        ensures
            final(state).wf(),
            final(self).tracks(*final(state)),
            final(state).within_limits(),
            final(state).tasks@.len() == old(state).tasks@.len(),
            forall|i: int|
                0 <= i < old(state).tasks@.len() ==> #[trigger] final(state).tasks@[i]
                    == task_recovered(old(state).tasks@[i]),
            final(state).groups == old(state).groups,
            final(state).order == old(state).order,
            final(state).next_id == old(state).next_id,
            final(state).running,
            !final(state).shutting_down,
            final(state).generation == bumped(old(state).generation),
            final(self)@ == Set::<usize>::empty(),
    {
        state.recover();
        self.clear();
    }
}

} // verus!
