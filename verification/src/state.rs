use crate::task::{Error, Task, TaskResult, TaskStatus};
use vstd::prelude::*;

verus! {

/// Whether a group hands out its slots.
#[derive(Clone, Copy, Debug, PartialEq, Eq, Structural)]
pub enum GroupStatus {
    Running,
    Paused,
}

/// A named bucket of tasks with its own parallelism limit.
#[derive(Clone, Debug, PartialEq, Eq)]
pub struct Group {
    pub name: String,
    pub limit: usize,
    pub status: GroupStatus,
}

/// The authoritative model of all tasks and groups.
///
/// Tasks are kept in the order of their creation, which is the order of
/// their ids; `order` lists their ids as they are displayed. The group at
/// position 0 is the default group.
#[derive(Clone, Debug, PartialEq, Eq)]
pub struct State {
    pub tasks: Vec<Task>,
    pub order: Vec<usize>,
    pub groups: Vec<Group>,
    pub running: bool,
    pub shutting_down: bool,
    pub next_id: usize,
    pub generation: u64,
}

/// The name of the group that always exists.
pub open spec fn default_name() -> Seq<char> {
    "default"@
}

/// Some group carries this name.
pub open spec fn group_named(groups: Seq<Group>, name: Seq<char>) -> bool {
    exists|g: int| 0 <= g < groups.len() && (#[trigger] groups[g]).name@ == name
}

/// Some task carries this id.
pub open spec fn task_with_id(tasks: Seq<Task>, id: usize) -> bool {
    exists|i: int| 0 <= i < tasks.len() && (#[trigger] tasks[i]).id == id
}

/// The generation counter after one more mutation.
pub open spec fn bumped(generation: u64) -> u64 {
    if generation == u64::MAX {
        0
    } else {
        (generation + 1) as u64
    }
}

/// The status a task is created with.
pub open spec fn initial_status(stashed: bool, enqueue_at: Option<u64>) -> TaskStatus {
    if stashed {
        TaskStatus::Stashed
    } else if enqueue_at is Some {
        TaskStatus::Locked
    } else {
        TaskStatus::Queued
    }
}

/// Both task lists hold tasks of the same ids, groups and dependencies in
/// the same order.
pub open spec fn same_records(a: Seq<Task>, b: Seq<Task>) -> bool {
    &&& a.len() == b.len()
    &&& forall|i: int| 0 <= i < a.len() ==> (#[trigger] a[i]).same_record(b[i])
}

pub(crate) fn same_name(a: &String, b: &String) -> (r: bool)
    ensures
        r == (a@ == b@),
{
    a.eq(b)
}

pub(crate) fn next_generation(generation: u64) -> (r: u64)
    ensures
        r == bumped(generation),
{
    if generation == u64::MAX {
        0
    } else {
        generation + 1
    }
}

impl State {
    /// The invariants of the store.
    pub open spec fn wf(self) -> bool {
        let tasks = self.tasks@;
        let groups = self.groups@;
        &&& groups.len() > 0
        &&& groups[0].name@ == default_name()
        &&& forall|g: int, h: int|
            0 <= g < h < groups.len() ==> (#[trigger] groups[g]).name@ != (#[trigger] groups[h]).name@
        &&& forall|i: int, j: int|
            0 <= i < j < tasks.len() ==> (#[trigger] tasks[i]).id < (#[trigger] tasks[j]).id
        &&& forall|i: int| 0 <= i < tasks.len() ==> (#[trigger] tasks[i]).id < self.next_id
        &&& forall|i: int|
            0 <= i < tasks.len() ==> group_named(groups, (#[trigger] tasks[i]).group@)
        &&& forall|i: int, k: int|
            0 <= i < tasks.len() && 0 <= k < tasks[i].dependencies@.len() ==> (
            #[trigger] tasks[i].dependencies@[k]) < tasks[i].id
        &&& forall|a: int, b: int|
            0 <= a < b < self.order@.len() ==> (#[trigger] self.order@[a]) != (
            #[trigger] self.order@[b])
        &&& forall|k: int|
            0 <= k < self.order@.len() ==> task_with_id(tasks, #[trigger] self.order@[k])
        &&& forall|i: int| 0 <= i < tasks.len() ==> self.order@.contains((#[trigger] tasks[i]).id)
    }

    /// A fresh store: no task, the default group with one slot, not paused.
    pub fn new() -> (s: State)
        ensures
            s.wf(),
            s.tasks@.len() == 0,
            s.order@.len() == 0,
            s.groups@.len() == 1,
            s.groups@[0].limit == 1,
            s.groups@[0].status == GroupStatus::Running,
            s.running,
            !s.shutting_down,
            s.next_id == 0,
            s.generation == 0,
            s.within_limits(),
            crate::registry::active_ids(s.tasks@) == Set::<usize>::empty(),
    {
        let mut groups: Vec<Group> = Vec::new();
        groups.push(
            Group { name: String::from_str("default"), limit: 1, status: GroupStatus::Running },
        );
        let s = State {
            tasks: Vec::new(),
            order: Vec::new(),
            groups,
            running: true,
            shutting_down: false,
            next_id: 0,
            generation: 0,
        };
        proof {
            crate::registry::lemma_active_none(s.tasks@);
        }
        s
    }

    /// The position of the group with this name.
    pub fn find_group(&self, name: &String) -> (r: Option<usize>)
        ensures
            match r {
                Some(g) => g < self.groups@.len() && self.groups@[g as int].name@ == name@,
                None => !group_named(self.groups@, name@),
            },
    {
        let mut g: usize = 0;
        while g < self.groups.len()
            invariant
                g <= self.groups@.len(),
                forall|h: int| 0 <= h < g ==> (#[trigger] self.groups@[h]).name@ != name@,
            decreases self.groups@.len() - g,
        {
            if same_name(&self.groups[g].name, name) {
                return Some(g);
            }
            g += 1;
        }
        None
    }

    /// The position of the task with this id.
    pub fn find_task(&self, id: usize) -> (r: Option<usize>)
        ensures
            match r {
                Some(i) => i < self.tasks@.len() && self.tasks@[i as int].id == id,
                None => !task_with_id(self.tasks@, id),
            },
    {
        let mut i: usize = 0;
        while i < self.tasks.len()
            invariant
                i <= self.tasks@.len(),
                forall|j: int| 0 <= j < i ==> (#[trigger] self.tasks@[j]).id != id,
            decreases self.tasks@.len() - i,
        {
            if self.tasks[i].id == id {
                return Some(i);
            }
            i += 1;
        }
        None
    }

    /// Adds a group. A name that is taken is refused with `WrongState`.
    pub fn add_group(&mut self, name: String, limit: usize) -> (r: Result<(), Error>)
        requires
            old(self).wf(),
        ensures
            final(self).wf(),
            r == if group_named(old(self).groups@, name@) {
                Err::<(), Error>(Error::WrongState)
            } else {
                Ok::<(), Error>(())
            },
            r is Err ==> *final(self) == *old(self),
            r is Ok ==> final(self).groups@ == old(self).groups@.push(
                (Group { name, limit, status: GroupStatus::Running }),
            ) && final(self).tasks == old(self).tasks && final(self).order == old(self).order
                && final(self).running == old(self).running
                && final(self).shutting_down == old(self).shutting_down && final(self).next_id
                == old(self).next_id && final(self).generation == bumped(old(self).generation),
            old(self).within_limits() ==> final(self).within_limits(),
    {
        if self.find_group(&name).is_some() {
            return Err(Error::WrongState);
        }
        self.groups.push(Group { name, limit, status: GroupStatus::Running });
        self.generation = next_generation(self.generation);
        proof {
            let old_groups = old(self).groups@;
            let groups = self.groups@;
            assert forall|i: int| 0 <= i < self.tasks@.len() implies group_named(
                groups,
                (#[trigger] self.tasks@[i]).group@,
            ) by {
                let g = choose|g: int|
                    0 <= g < old_groups.len() && (#[trigger] old_groups[g]).name@
                        == self.tasks@[i].group@;
                assert(groups[g].name@ == self.tasks@[i].group@);
            }
            assert forall|i: int| 0 <= i < self.tasks@.len() implies !crate::scheduler::holds_slot(
                #[trigger] self.tasks@[i],
                name@,
            ) by {
                assert(group_named(old_groups, self.tasks@[i].group@));
            }
            crate::transitions::lemma_count_idle(self.tasks@, name@);
            if old(self).within_limits() {
                assert forall|g: int| 0 <= g < groups.len() implies crate::scheduler::active_count(
                    self.tasks@,
                    (#[trigger] groups[g]).name@,
                ) <= groups[g].limit by {
                    if g < old_groups.len() {
                        assert(groups[g] == old_groups[g]);
                    }
                }
            }
        }
        Ok(())
    }

    /// Sets the parallel limit of a group. Zero pauses the group.
    pub fn set_limit(&mut self, name: &String, limit: usize) -> (r: Result<(), Error>)
        requires
            old(self).wf(),
        ensures
            final(self).wf(),
            r == if group_named(old(self).groups@, name@) {
                Ok::<(), Error>(())
            } else {
                Err::<(), Error>(Error::NotFound)
            },
            r is Err ==> *final(self) == *old(self),
            r is Ok ==> final(self).tasks == old(self).tasks && final(self).order == old(
                self,
            ).order && final(self).running == old(self).running && final(self).shutting_down == old(self).shutting_down
                && final(self).next_id == old(self).next_id && final(self).generation == bumped(
                old(self).generation,
            ) && final(self).groups@.len() == old(self).groups@.len() && forall|g: int|
                0 <= g < old(self).groups@.len() ==> (#[trigger] final(self).groups@[g]).name
                    == old(self).groups@[g].name && final(self).groups@[g].status == old(
                    self,
                ).groups@[g].status && final(self).groups@[g].limit == if old(
                    self,
                ).groups@[g].name@ == name@ {
                    limit
                } else {
                    old(self).groups@[g].limit
                },
            old(self).within_limits() && crate::scheduler::active_count(old(self).tasks@, name@)
                <= limit ==> final(self).within_limits(),
    {
        match self.find_group(name) {
            None => Err(Error::NotFound),
            Some(g) => {
                self.groups[g].limit = limit;
                self.generation = next_generation(self.generation);
                proof {
                    let old_groups = old(self).groups@;
                    let groups = self.groups@;
                    assert forall|i: int| 0 <= i < self.tasks@.len() implies group_named(
                        groups,
                        (#[trigger] self.tasks@[i]).group@,
                    ) by {
                        let h = choose|h: int|
                            0 <= h < old_groups.len() && (#[trigger] old_groups[h]).name@
                                == self.tasks@[i].group@;
                        assert(groups[h].name@ == self.tasks@[i].group@);
                    }
                    if old(self).within_limits() && crate::scheduler::active_count(
                        old(self).tasks@,
                        name@,
                    ) <= limit {
                        assert forall|h: int|
                            0 <= h < groups.len() implies crate::scheduler::active_count(
                            self.tasks@,
                            (#[trigger] groups[h]).name@,
                        ) <= groups[h].limit by {
                            assert(old_groups[h].name@ == groups[h].name@);
                        }
                    }
                }
                Ok(())
            },
        }
    }
}

} // verus!
