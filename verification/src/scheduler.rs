use crate::state::{bumped, GroupStatus, State};
use crate::task::{Task, TaskResult, TaskStatus};
use vstd::prelude::*;

verus! {

/// The task holds a slot of this group.
pub open spec fn holds_slot(task: Task, group: Seq<char>) -> bool {
    task.status.is_active() && task.group@ == group
}

/// How many tasks of a group are running or paused.
pub open spec fn active_count(tasks: Seq<Task>, group: Seq<char>) -> nat
    decreases tasks.len(),
{
    if tasks.len() == 0 {
        0
    } else {
        active_count(tasks.drop_last(), group) + if holds_slot(tasks.last(), group) {
            1nat
        } else {
            0nat
        }
    }
}

/// An earlier task with id `dep` ended well.
pub open spec fn succeeded(tasks: Seq<Task>, i: int, dep: usize) -> bool {
    exists|j: int| 0 <= j < i && (#[trigger] tasks[j]).id == dep && tasks[j].status.is_success()
}

/// Every dependency of the task at position `i` ended well.
pub open spec fn deps_done(tasks: Seq<Task>, i: int) -> bool {
    forall|k: int|
        0 <= k < tasks[i].dependencies@.len() ==> succeeded(
            tasks,
            i,
            #[trigger] tasks[i].dependencies@[k],
        )
}

/// Some dependency of the task at position `i` ended, and not well.
pub open spec fn has_failed_dep(tasks: Seq<Task>, i: int) -> bool {
    exists|j: int|
        0 <= j < i && (#[trigger] tasks[j]).status.is_failure()
            && tasks[i].dependencies@.contains(tasks[j].id)
}

/// Two task lists that agree, but for one position, on who holds a slot
/// of the group, differ in their counts by that position alone.
pub proof fn lemma_count_change(a: Seq<Task>, b: Seq<Task>, p: int, group: Seq<char>)
    requires
        a.len() == b.len(),
        forall|i: int|
            0 <= i < a.len() && i != p ==> holds_slot(#[trigger] a[i], group) == holds_slot(
                b[i],
                group,
            ),
    ensures
        0 <= p < a.len() ==> active_count(b, group) + (if holds_slot(a[p], group) {
            1int
        } else {
            0int
        }) == active_count(a, group) + (if holds_slot(b[p], group) {
            1int
        } else {
            0int
        }),
        !(0 <= p < a.len()) ==> active_count(b, group) == active_count(a, group),
    decreases a.len(),
{
    if a.len() > 0 {
        let a0 = a.drop_last();
        let b0 = b.drop_last();
        assert forall|i: int| 0 <= i < a0.len() && i != p implies holds_slot(
            #[trigger] a0[i],
            group,
        ) == holds_slot(b0[i], group) by {
            assert(a0[i] == a[i]);
            assert(b0[i] == b[i]);
        }
        lemma_count_change(a0, b0, p, group);
        if p == a.len() - 1 {
        } else {
            assert(holds_slot(a[a.len() - 1], group) == holds_slot(b[a.len() - 1], group));
            if 0 <= p < a.len() {
                assert(a0[p] == a[p]);
                assert(b0[p] == b[p]);
            }
        }
    }
}

fn contains_id(ids: &Vec<usize>, id: usize) -> (r: bool)
    ensures
        r == ids@.contains(id),
{
    let mut k: usize = 0;
    while k < ids.len()
        invariant
            k <= ids@.len(),
            forall|m: int| 0 <= m < k ==> ids@[m] != id,
        decreases ids@.len() - k,
    {
        if ids[k] == id {
            return true;
        }
        k += 1;
    }
    false
}

impl State {
    /// The group of this name is running and has a free slot.
    pub open spec fn has_room(self, group: Seq<char>) -> bool {
        exists|g: int|
            0 <= g < self.groups@.len() && (#[trigger] self.groups@[g]).name@ == group
                && self.groups@[g].status == GroupStatus::Running && active_count(
                self.tasks@,
                group,
            ) < self.groups@[g].limit
    }

    /// The task at position `i` may be spawned now.
    pub open spec fn eligible(self, i: int) -> bool {
        &&& 0 <= i < self.tasks@.len()
        &&& self.running
        &&& !self.shutting_down
        &&& self.tasks@[i].status is Queued
        &&& !self.tasks@[i].editing
        &&& self.has_room(self.tasks@[i].group@)
        &&& deps_done(self.tasks@, i)
    }

    /// No group holds more running and paused tasks than its limit.
    pub open spec fn within_limits(self) -> bool {
        forall|g: int|
            0 <= g < self.groups@.len() ==> active_count(
                self.tasks@,
                (#[trigger] self.groups@[g]).name@,
            ) <= self.groups@[g].limit
    }

    /// Counts the running and paused tasks of a group.
    pub fn count_active(&self, group: &String) -> (count: usize)
        ensures
            count == active_count(self.tasks@, group@),
    {
        let mut count: usize = 0;
        let mut i: usize = 0;
        while i < self.tasks.len()
            invariant
                i <= self.tasks@.len(),
                count <= i,
                count == active_count(self.tasks@.take(i as int), group@),
            decreases self.tasks@.len() - i,
        {
            proof {
                assert(self.tasks@.take(i + 1).drop_last() =~= self.tasks@.take(i as int));
            }
            if self.tasks[i].status.active() && self.tasks[i].group.eq(group) {
                count += 1;
            }
            i += 1;
        }
        proof {
            assert(self.tasks@.take(i as int) =~= self.tasks@);
        }
        count
    }

    /// Tells whether a group is running and has a free slot.
    pub fn group_has_room(&self, group: &String) -> (r: bool)
        requires
            self.wf(),
        ensures
            r == self.has_room(group@),
    {
        match self.find_group(group) {
            None => false,
            Some(g) => {
                let r = self.groups[g].status == GroupStatus::Running && self.count_active(group)
                    < self.groups[g].limit;
                proof {
                    if !r && self.has_room(group@) {
                        let h = choose|h: int|
                            0 <= h < self.groups@.len() && (#[trigger] self.groups@[h]).name@
                                == group@ && self.groups@[h].status == GroupStatus::Running
                                && active_count(self.tasks@, group@) < self.groups@[h].limit;
                        assert(h == g);
                    }
                }
                r
            },
        }
    }

    /// Tells whether an earlier task with id `dep` ended well.
    pub fn dependency_succeeded(&self, i: usize, dep: usize) -> (r: bool)
        requires
            i < self.tasks@.len(),
        ensures
            r == succeeded(self.tasks@, i as int, dep),
    {
        let mut j: usize = 0;
        while j < i
            invariant
                j <= i < self.tasks@.len(),
                forall|m: int|
                    0 <= m < j ==> !((#[trigger] self.tasks@[m]).id == dep
                        && self.tasks@[m].status.is_success()),
            decreases i - j,
        {
            if self.tasks[j].id == dep && self.tasks[j].status.success() {
                return true;
            }
            j += 1;
        }
        false
    }

    /// Tells whether every dependency of the task at position `i` ended well.
    pub fn dependencies_done(&self, i: usize) -> (r: bool)
        requires
            i < self.tasks@.len(),
        ensures
            r == deps_done(self.tasks@, i as int),
    {
        let mut k: usize = 0;
        while k < self.tasks[i].dependencies.len()
            invariant
                i < self.tasks@.len(),
                k <= self.tasks@[i as int].dependencies@.len(),
                forall|m: int|
                    0 <= m < k ==> succeeded(
                        self.tasks@,
                        i as int,
                        #[trigger] self.tasks@[i as int].dependencies@[m],
                    ),
            decreases self.tasks@[i as int].dependencies@.len() - k,
        {
            if !self.dependency_succeeded(i, self.tasks[i].dependencies[k]) {
                return false;
            }
            k += 1;
        }
        true
    }

    /// Tells whether some dependency of the task at position `i` ended,
    /// and not well.
    pub fn failed_dependency(&self, i: usize) -> (r: bool)
        requires
            i < self.tasks@.len(),
        ensures
            r == has_failed_dep(self.tasks@, i as int),
    {
        let mut j: usize = 0;
        while j < i
            invariant
                j <= i < self.tasks@.len(),
                forall|m: int|
                    0 <= m < j ==> !((#[trigger] self.tasks@[m]).status.is_failure()
                        && self.tasks@[i as int].dependencies@.contains(self.tasks@[m].id)),
            decreases i - j,
        {
            if self.tasks[j].status.failure() && contains_id(
                &self.tasks[i].dependencies,
                self.tasks[j].id,
            ) {
                return true;
            }
            j += 1;
        }
        false
    }

    /// Tells whether the task at position `i` may be spawned now.
    pub fn is_eligible(&self, i: usize) -> (r: bool)
        requires
            self.wf(),
        ensures
            r == self.eligible(i as int),
    {
        i < self.tasks.len() && self.running && !self.shutting_down
            && self.tasks[i].status.queued() && !self.tasks[i].editing && self.group_has_room(
            &self.tasks[i].group,
        ) && self.dependencies_done(i)
    }

    /// The position of the eligible task with the least id.
    pub fn next_to_spawn(&self) -> (r: Option<usize>)
        requires
            self.wf(),
        ensures
            match r {
                Some(i) => self.eligible(i as int) && forall|j: int|
                    0 <= j < i ==> !self.eligible(j),
                None => forall|j: int| !self.eligible(j),
            },
    {
        let mut i: usize = 0;
        while i < self.tasks.len()
            invariant
                self.wf(),
                i <= self.tasks@.len(),
                forall|j: int| 0 <= j < i ==> !self.eligible(j),
            decreases self.tasks@.len() - i,
        {
            if self.is_eligible(i) {
                return Some(i);
            }
            i += 1;
        }
        None
    }
}

} // verus!
