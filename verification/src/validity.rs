use crate::state::{default_name, group_named, same_name, task_with_id, State};
use vstd::prelude::*;

verus! {

impl State {
    fn groups_valid(&self) -> (r: bool)
        ensures
            r == (self.groups@.len() > 0 && self.groups@[0].name@ == default_name() && forall|
                g: int,
                h: int,
            |
                0 <= g < h < self.groups@.len() ==> (#[trigger] self.groups@[g]).name@ != (
                #[trigger] self.groups@[h]).name@),
    {
        if self.groups.len() == 0 {
            return false;
        }
        let default = String::from_str("default");
        if !same_name(&self.groups[0].name, &default) {
            return false;
        }
        let n = self.groups.len();
        let mut h: usize = 1;
        while h < n
            invariant
                1 <= h <= n,
                n == self.groups@.len(),
                forall|a: int, b: int|
                    0 <= a < b < h ==> (#[trigger] self.groups@[a]).name@ != (
                    #[trigger] self.groups@[b]).name@,
            decreases n - h,
        {
            let mut g: usize = 0;
            while g < h
                invariant
                    g <= h < n,
                    n == self.groups@.len(),
                    forall|a: int|
                        0 <= a < g ==> (#[trigger] self.groups@[a]).name@
                            != self.groups@[h as int].name@,
                decreases h - g,
            {
                if same_name(&self.groups[g].name, &self.groups[h].name) {
                    return false;
                }
                g += 1;
            }
            h += 1;
        }
        true
    }

    fn task_valid(&self, i: usize) -> (r: bool)
        requires
            i < self.tasks@.len(),
        ensures
            r == (self.tasks@[i as int].id < self.next_id && group_named(
                self.groups@,
                self.tasks@[i as int].group@,
            ) && (i > 0 ==> self.tasks@[i - 1].id < self.tasks@[i as int].id) && forall|k: int|
                0 <= k < self.tasks@[i as int].dependencies@.len() ==> (
                #[trigger] self.tasks@[i as int].dependencies@[k]) < self.tasks@[i as int].id),
    {
        if self.tasks[i].id >= self.next_id {
            return false;
        }
        if self.find_group(&self.tasks[i].group).is_none() {
            return false;
        }
        if i > 0 && self.tasks[i - 1].id >= self.tasks[i].id {
            return false;
        }
        let mut k: usize = 0;
        while k < self.tasks[i].dependencies.len()
            invariant
                i < self.tasks@.len(),
                k <= self.tasks@[i as int].dependencies@.len(),
                forall|m: int|
                    0 <= m < k ==> (#[trigger] self.tasks@[i as int].dependencies@[m])
                        < self.tasks@[i as int].id,
            decreases self.tasks@[i as int].dependencies@.len() - k,
        {
            if self.tasks[i].dependencies[k] >= self.tasks[i].id {
                return false;
            }
            k += 1;
        }
        true
    }

    fn order_valid(&self) -> (r: bool)
        ensures
            r == ((forall|a: int, b: int|
                0 <= a < b < self.order@.len() ==> (#[trigger] self.order@[a]) != (
                #[trigger] self.order@[b])) && (forall|k: int|
                0 <= k < self.order@.len() ==> task_with_id(
                    self.tasks@,
                    #[trigger] self.order@[k],
                )) && (forall|i: int|
                0 <= i < self.tasks@.len() ==> self.order@.contains(
                    (#[trigger] self.tasks@[i]).id,
                ))),
    {
        let n = self.order.len();
        let mut b: usize = 0;
        while b < n
            invariant
                b <= n,
                n == self.order@.len(),
                forall|x: int, y: int|
                    0 <= x < y < b ==> (#[trigger] self.order@[x]) != (#[trigger] self.order@[y]),
                forall|k: int|
                    0 <= k < b ==> task_with_id(self.tasks@, #[trigger] self.order@[k]),
            decreases n - b,
        {
            if self.find_task(self.order[b]).is_none() {
                return false;
            }
            let mut a: usize = 0;
            while a < b
                invariant
                    a <= b < n,
                    n == self.order@.len(),
                    forall|x: int| 0 <= x < a ==> self.order@[x] != self.order@[b as int],
                decreases b - a,
            {
                if self.order[a] == self.order[b] {
                    return false;
                }
                a += 1;
            }
            b += 1;
        }
        let mut i: usize = 0;
        while i < self.tasks.len()
            invariant
                i <= self.tasks@.len(),
                forall|j: int|
                    0 <= j < i ==> self.order@.contains((#[trigger] self.tasks@[j]).id),
            decreases self.tasks@.len() - i,
        {
            if self.display_position(self.tasks[i].id).is_none() {
                return false;
            }
            i += 1;
        }
        true
    }

    /// Tells whether the store's invariants hold, as they must of a store
    /// that was read back from disk before anything is done with it.
    pub fn is_valid(&self) -> (r: bool)
        ensures
            r == self.wf(),
    {
        if !self.groups_valid() || !self.order_valid() {
            return false;
        }
        let n = self.tasks.len();
        let mut i: usize = 0;
        while i < n
            invariant
                i <= n,
                n == self.tasks@.len(),
                forall|a: int, b: int|
                    0 <= a < b < i ==> (#[trigger] self.tasks@[a]).id < (
                    #[trigger] self.tasks@[b]).id,
                forall|a: int| 0 <= a < i ==> (#[trigger] self.tasks@[a]).id < self.next_id,
                forall|a: int|
                    0 <= a < i ==> group_named(self.groups@, (#[trigger] self.tasks@[a]).group@),
                forall|a: int, k: int|
                    0 <= a < i && 0 <= k < self.tasks@[a].dependencies@.len() ==> (
                    #[trigger] self.tasks@[a].dependencies@[k]) < self.tasks@[a].id,
            decreases n - i,
        {
            if !self.task_valid(i) {
                proof {
                    if i > 0 && self.tasks@[i - 1].id >= self.tasks@[i as int].id {
                        assert(!(self.tasks@[i - 1].id < self.tasks@[i as int].id));
                    }
                }
                return false;
            }
            i += 1;
        }
        true
    }
}

} // verus!
