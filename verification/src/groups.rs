use crate::registry::{active_ids, lemma_active_same};
use crate::scheduler::{active_count, holds_slot, lemma_count_change};
use crate::state::{
    bumped, default_name, group_named, next_generation, same_name, task_with_id, Group,
    GroupStatus, State,
};
use crate::task::{Error, Task};
use vstd::prelude::*;

verus! {

/// Some task of the group has not ended.
pub open spec fn group_in_use(tasks: Seq<Task>, group: Seq<char>) -> bool {
    exists|i: int|
        0 <= i < tasks.len() && (#[trigger] tasks[i]).group@ == group && !(tasks[i].status is Done)
}

/// The position of the group with this name.
pub open spec fn group_position(groups: Seq<Group>, name: Seq<char>) -> int {
    choose|g: int| 0 <= g < groups.len() && (#[trigger] groups[g]).name@ == name
}

/// What the removal of the group `name` makes of the task `before`: a task
/// of that group belongs to the default group afterwards, and nothing else
/// changes.
pub open spec fn regrouped(before: Task, after: Task, name: Seq<char>) -> bool {
    &&& after == (Task { group: after.group, ..before })
    &&& after.group@ == if before.group@ == name {
        default_name()
    } else {
        before.group@
    }
}

impl State {
    /// Pauses or resumes a group.
    pub fn set_group_status(&mut self, name: &String, status: GroupStatus) -> (r: Result<
        (),
        Error,
    >)
        requires
            old(self).wf(),
        ensures
            final(self).wf(),
            r == if group_named(old(self).groups@, name@) {
                Ok::<(), Error>(())
            } else {
                Err::<(), Error>(Error::NotFound)
            },
            r is Err ==> *final(self) == *old(self),
            r is Ok ==> final(self).tasks == old(self).tasks && final(self).order == old(
                self,
            ).order && final(self).running == old(self).running && final(self).shutting_down == old(self).shutting_down
                && final(self).next_id == old(self).next_id && final(self).generation == bumped(
                old(self).generation,
            ) && final(self).groups@.len() == old(self).groups@.len() && forall|g: int|
                0 <= g < old(self).groups@.len() ==> (#[trigger] final(self).groups@[g]).name
                    == old(self).groups@[g].name && final(self).groups@[g].limit == old(
                    self,
                ).groups@[g].limit && final(self).groups@[g].status == if old(
                    self,
                ).groups@[g].name@ == name@ {
                    status
                } else {
                    old(self).groups@[g].status
                },
            old(self).within_limits() ==> final(self).within_limits(),
    {
        match self.find_group(name) {
            None => Err(Error::NotFound),
            Some(g) => {
                self.groups[g].status = status;
                self.generation = next_generation(self.generation);
                proof {
                    let old_groups = old(self).groups@;
                    let groups = self.groups@;
                    assert forall|i: int| 0 <= i < self.tasks@.len() implies group_named(
                        groups,
                        (#[trigger] self.tasks@[i]).group@,
                    ) by {
                        let h = choose|h: int|
                            0 <= h < old_groups.len() && (#[trigger] old_groups[h]).name@
                                == self.tasks@[i].group@;
                        assert(groups[h].name@ == self.tasks@[i].group@);
                    }
                    if old(self).within_limits() {
                        assert forall|h: int| 0 <= h < groups.len() implies active_count(
                            self.tasks@,
                            (#[trigger] groups[h]).name@,
                        ) <= groups[h].limit by {
                            assert(old_groups[h].name@ == groups[h].name@);
                        }
                    }
                }
                Ok(())
            },
        }
    }

    /// Removes a group. The default group stays, and so does a group with
    /// a task that has not ended. Ended tasks of the removed group are
    /// handed to the default group.
    pub fn remove_group(&mut self, name: &String) -> (r: Result<(), Error>)
        requires
            old(self).wf(),
        ensures
            final(self).wf(),
            r == if name@ == default_name() {
                Err::<(), Error>(Error::WrongState)
            } else if !group_named(old(self).groups@, name@) {
                Err::<(), Error>(Error::NotFound)
            } else if group_in_use(old(self).tasks@, name@) {
                Err::<(), Error>(Error::WrongState)
            } else {
                Ok::<(), Error>(())
            },
            r is Err ==> *final(self) == *old(self),
            r is Ok ==> final(self).groups@ == old(self).groups@.remove(
                group_position(old(self).groups@, name@),
            ) && final(self).tasks@.len() == old(self).tasks@.len() && (forall|i: int|
                0 <= i < old(self).tasks@.len() ==> regrouped(
                    old(self).tasks@[i],
                    #[trigger] final(self).tasks@[i],
                    name@,
                )) && final(self).order == old(self).order && final(self).running == old(
                self,
            ).running && final(self).shutting_down
                == old(self).shutting_down && final(self).next_id == old(self).next_id
                && final(self).generation == bumped(old(self).generation),
            old(self).within_limits() ==> final(self).within_limits(),
            active_ids(final(self).tasks@) == active_ids(old(self).tasks@),
    {
        let default = String::from_str("default");
        if same_name(name, &default) {
            return Err(Error::WrongState);
        }
        let g = match self.find_group(name) {
            None => {
                return Err(Error::NotFound);
            },
            Some(g) => g,
        };
        let n = self.tasks.len();
        let mut i: usize = 0;
        while i < n
            invariant
                i <= n,
                n == self.tasks@.len(),
                *self == *old(self),
                self.wf(),
                name@ != default_name(),
                g < self.groups@.len(),
                self.groups@[g as int].name@ == name@,
                forall|j: int|
                    0 <= j < i ==> !((#[trigger] self.tasks@[j]).group@ == name@
                        && !(self.tasks@[j].status is Done)),
            decreases n - i,
        {
            if same_name(&self.tasks[i].group, name) && !self.tasks[i].status.done() {
                return Err(Error::WrongState);
            }
            i += 1;
        }
        i = 0;
        while i < n
            invariant
                i <= n,
                n == self.tasks@.len(),
                n == old(self).tasks@.len(),
                self.same_frame(*old(self)),
                self.generation == old(self).generation,
                old(self).wf(),
                name@ != default_name(),
                g < old(self).groups@.len(),
                old(self).groups@[g as int].name@ == name@,
                forall|j: int|
                    0 <= j < n ==> !((#[trigger] old(self).tasks@[j]).group@ == name@ && !(old(
                        self,
                    ).tasks@[j].status is Done)),
                forall|j: int| i <= j < n ==> self.tasks@[j] == old(self).tasks@[j],
                forall|j: int|
                    0 <= j < i ==> regrouped(
                        old(self).tasks@[j],
                        #[trigger] self.tasks@[j],
                        name@,
                    ),
            decreases n - i,
        {
            if same_name(&self.tasks[i].group, name) {
                self.tasks[i].group = String::from_str("default");
            }
            i += 1;
        }
        self.groups.remove(g);
        self.generation = next_generation(self.generation);
        proof {
            let a = old(self).tasks@;
            let b = self.tasks@;
            let ga = old(self).groups@;
            let gb = self.groups@;
            assert forall|x: int| 0 <= x < a.len() implies (#[trigger] a[x]).id == b[x].id
                && a[x].status.is_active() == b[x].status.is_active() by {
                assert(regrouped(a[x], b[x], name@));
            }
            lemma_active_same(a, b);
            assert(ga[0].name@ != name@);
            assert(g != 0);
            assert(group_position(ga, name@) == g) by {
                let q = group_position(ga, name@);
                assert(ga[q].name@ == name@);
                if q < g {
                    assert(ga[q].name@ != ga[g as int].name@);
                }
                if g < q {
                    assert(ga[g as int].name@ != ga[q].name@);
                }
            }
            assert forall|h: int| 0 <= h < gb.len() implies #[trigger] gb[h] == ga[if h < g {
                h
            } else {
                h + 1
            }] by {}
            assert forall|x: int, y: int| 0 <= x < y < gb.len() implies (#[trigger] gb[x]).name@
                != (#[trigger] gb[y]).name@ by {
                let x0 = if x < g { x } else { x + 1 };
                let y0 = if y < g { y } else { y + 1 };
                assert(ga[x0].name@ != ga[y0].name@);
            }
            assert forall|x: int, y: int| 0 <= x < y < b.len() implies (#[trigger] b[x]).id < (
            #[trigger] b[y]).id by {
                assert(regrouped(a[x], b[x], name@));
                assert(regrouped(a[y], b[y], name@));
                assert(a[x].id < a[y].id);
            }
            assert forall|x: int| 0 <= x < b.len() implies (#[trigger] b[x]).id
                < self.next_id by {
                assert(regrouped(a[x], b[x], name@));
                assert(a[x].id < old(self).next_id);
            }
            assert forall|x: int, c: int|
                0 <= x < b.len() && 0 <= c < b[x].dependencies@.len() implies (
            #[trigger] b[x].dependencies@[c]) < b[x].id by {
                assert(regrouped(a[x], b[x], name@));
                assert(a[x].dependencies@[c] < a[x].id);
            }
            assert forall|k: int| 0 <= k < self.order@.len() implies task_with_id(
                b,
                #[trigger] self.order@[k],
            ) by {
                assert(task_with_id(a, old(self).order@[k]));
                let x = choose|x: int| 0 <= x < a.len() && (#[trigger] a[x]).id == self.order@[k];
                assert(regrouped(a[x], b[x], name@));
            }
            assert forall|x: int| 0 <= x < b.len() implies self.order@.contains(
                (#[trigger] b[x]).id,
            ) by {
                assert(regrouped(a[x], b[x], name@));
                assert(old(self).order@.contains(a[x].id));
            }
            assert forall|x: int| 0 <= x < b.len() implies group_named(
                gb,
                (#[trigger] b[x]).group@,
            ) by {
                assert(regrouped(a[x], b[x], name@));
                if a[x].group@ == name@ {
                    assert(gb[0].name@ == default_name());
                } else {
                    assert(group_named(ga, a[x].group@));
                    let h = choose|h: int|
                        0 <= h < ga.len() && (#[trigger] ga[h]).name@ == a[x].group@;
                    assert(h != g);
                    let h1 = if h < g { h } else { h - 1 };
                    assert(gb[h1] == ga[h]);
                }
            }
            if old(self).within_limits() {
                assert forall|h: int| 0 <= h < gb.len() implies active_count(
                    b,
                    (#[trigger] gb[h]).name@,
                ) <= gb[h].limit by {
                    let h0 = if h < g { h } else { h + 1 };
                    let group = gb[h].name@;
                    assert(gb[h] == ga[h0]);
                    assert forall|x: int| 0 <= x < a.len() implies holds_slot(
                        #[trigger] a[x],
                        group,
                    ) == holds_slot(b[x], group) by {
                        assert(regrouped(a[x], b[x], name@));
                    }
                    lemma_count_change(a, b, -1, group);
                }
            }
        }
        Ok(())
    }
}

} // verus!
