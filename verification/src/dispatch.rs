use crate::handler::TaskHandler;
use crate::messages::{task_paused, task_resumed};
use crate::scheduler::deps_done;
use crate::state::{bumped, task_with_id, State};
use crate::task::{Task, TaskStatus};
use crate::transitions::{position, task_in, task_started};
use vstd::prelude::*;

verus! {

/// What the front-end asks of the task handler: everything that spawns,
/// signals or reaps a child. Without ids a message speaks of all tasks.
#[derive(Clone, Debug, PartialEq, Eq)]
pub enum Message {
    Start(Option<Vec<usize>>),
    Pause { ids: Option<Vec<usize>>, wait: bool },
    Kill { ids: Option<Vec<usize>>, children: bool },
    Send { id: usize, input: String },
    Reset,
    DaemonShutdown { kill: bool },
}

/// What the caller has to do to a child after a message was handled.
#[derive(Clone, Debug, PartialEq, Eq)]
pub enum Action {
    /// Spawn the child of the task with the id; report a failure with
    /// `reap`.
    Spawn(usize),
    /// Send the stop signal to the process group of the child.
    Stop(usize),
    /// Send the continue signal to the process group of the child.
    Continue(usize),
    /// Send the kill signal to the child, or with `children` to its whole
    /// process group.
    Kill { id: usize, children: bool },
    /// Write the input to the standard input of the child.
    Write { id: usize, input: String },
}

/// A signal that goes to every task it fits.
#[derive(Clone, Copy, Debug, PartialEq, Eq, Structural)]
pub enum Signal {
    Stop,
    Continue,
    Kill { children: bool },
}

/// What a message asks for each of the tasks it names.
#[derive(Clone, Copy, Debug, PartialEq, Eq, Structural)]
pub enum Step {
    Start,
    Pause,
    Kill { children: bool },
}

/// The signal fits the task: running tasks are stopped, paused tasks
/// continued, and both are killed.
pub open spec fn wanted(t: Task, signal: Signal) -> bool {
    match signal {
        Signal::Stop => t.status is Running,
        Signal::Continue => t.status is Paused,
        Signal::Kill { children } => t.status.is_active(),
    }
}

/// The action that delivers a signal to a task.
pub open spec fn signal_action(id: usize, signal: Signal) -> Action {
    match signal {
        Signal::Stop => Action::Stop(id),
        Signal::Continue => Action::Continue(id),
        Signal::Kill { children } => Action::Kill { id, children },
    }
}

/// One action for each task that the signal fits, in the order of the ids.
pub open spec fn signals(tasks: Seq<Task>, signal: Signal) -> Seq<Action>
    decreases tasks.len(),
{
    if tasks.len() == 0 {
        Seq::<Action>::empty()
    } else {
        signals(tasks.drop_last(), signal) + if wanted(tasks.last(), signal) {
            seq![signal_action(tasks.last().id, signal)]
        } else {
            Seq::<Action>::empty()
        }
    }
}

/// The step can be taken for the task of this id: a start needs a waiting
/// task that is not being edited and whose dependencies ended well, a
/// pause a running task, a kill a running or paused one.
pub open spec fn step_applies(tasks: Seq<Task>, id: usize, step: Step) -> bool {
    let p = position(tasks, id);
    task_with_id(tasks, id) && match step {
        Step::Start => tasks[p].status.is_waiting() && !tasks[p].editing && deps_done(tasks, p),
        Step::Pause => tasks[p].status is Running,
        Step::Kill { children } => tasks[p].status.is_active(),
    }
}

/// The tasks after the step was taken for the task of this id.
pub open spec fn step_tasks(tasks: Seq<Task>, id: usize, step: Step, now: u64) -> Seq<Task> {
    let p = position(tasks, id);
    match step {
        Step::Start => tasks.update(p, task_started(tasks[p], now)),
        Step::Pause => tasks.update(p, task_in(tasks[p], TaskStatus::Paused)),
        Step::Kill { children } => tasks,
    }
}

/// The generation after the step was taken: a kill changes nothing in the
/// store until the child is reaped.
pub open spec fn step_generation(generation: u64, step: Step) -> u64 {
    match step {
        Step::Kill { children } => generation,
        _ => bumped(generation),
    }
}

/// The action that the caller owes after the step was taken.
pub open spec fn step_action(id: usize, step: Step) -> Action {
    match step {
        Step::Start => Action::Spawn(id),
        Step::Pause => Action::Stop(id),
        Step::Kill { children } => Action::Kill { id, children },
    }
}

/// The step taken for each id in turn, where it applies: the tasks and the
/// generation at the end, and the actions in the order of the ids. An id
/// for which the step does not apply is passed over.
pub open spec fn each(tasks: Seq<Task>, generation: u64, ids: Seq<usize>, step: Step, now: u64) -> (
    Seq<Task>,
    u64,
    Seq<Action>,
)
    decreases ids.len(),
{
    if ids.len() == 0 {
        (tasks, generation, Seq::<Action>::empty())
    } else if step_applies(tasks, ids[0], step) {
        let rest = each(
            step_tasks(tasks, ids[0], step, now),
            step_generation(generation, step),
            ids.drop_first(),
            step,
            now,
        );
        (rest.0, rest.1, seq![step_action(ids[0], step)] + rest.2)
    } else {
        each(tasks, generation, ids.drop_first(), step, now)
    }
}

/// What handling a message makes of the tasks and the generation, and the
/// actions that the caller owes.
pub open spec fn outcome(tasks: Seq<Task>, generation: u64, message: Message, now: u64) -> (
    Seq<Task>,
    u64,
    Seq<Action>,
) {
    match message {
        Message::Start(Some(ids)) => each(tasks, generation, ids@, Step::Start, now),
        Message::Start(None) => (
            Seq::new(tasks.len(), |i: int| task_resumed(tasks[i])),
            bumped(generation),
            signals(tasks, Signal::Continue),
        ),
        Message::Pause { ids: Some(ids), wait } => if wait {
            (tasks, generation, Seq::<Action>::empty())
        } else {
            each(tasks, generation, ids@, Step::Pause, now)
        },
        Message::Pause { ids: None, wait } => (
            Seq::new(tasks.len(), |i: int| task_paused(tasks[i], wait)),
            bumped(generation),
            if wait {
                Seq::<Action>::empty()
            } else {
                signals(tasks, Signal::Stop)
            },
        ),
        Message::Kill { ids: Some(ids), children } => each(
            tasks,
            generation,
            ids@,
            (Step::Kill { children }),
            now,
        ),
        Message::Kill { ids: None, children } => (
            tasks,
            generation,
            signals(tasks, (Signal::Kill { children })),
        ),
        Message::Send { id, input } => (
            tasks,
            generation,
            if task_with_id(tasks, id) && tasks[position(tasks, id)].status is Running {
                seq![(Action::Write { id, input })]
            } else {
                Seq::<Action>::empty()
            },
        ),
        Message::Reset => (
            Seq::<Task>::empty(),
            bumped(generation),
            signals(tasks, (Signal::Kill { children: true })),
        ),
        Message::DaemonShutdown { kill } => (
            tasks,
            bumped(generation),
            if kill {
                signals(tasks, (Signal::Kill { children: true }))
            } else {
                Seq::<Action>::empty()
            },
        ),
    }
}

/// Whether the daemon spawns tasks after a message was handled.
pub open spec fn running_after(running: bool, message: Message) -> bool {
    match message {
        Message::Start(None) => true,
        Message::Pause { ids: None, wait } => false,
        Message::DaemonShutdown { kill } => false,
        _ => running,
    }
}

impl State {
    /// One action for each task that the signal fits, in the order of the
    /// ids.
    pub fn signal_all(&self, signal: Signal) -> (actions: Vec<Action>)
        ensures
            actions@ == signals(self.tasks@, signal),
    {
        let mut actions: Vec<Action> = Vec::new();
        let mut i: usize = 0;
        while i < self.tasks.len()
            invariant
                i <= self.tasks@.len(),
                actions@ == signals(self.tasks@.take(i as int), signal),
            decreases self.tasks@.len() - i,
        {
            proof {
                assert(self.tasks@.take(i + 1).drop_last() =~= self.tasks@.take(i as int));
            }
            let id = self.tasks[i].id;
            match signal {
                Signal::Stop => {
                    if self.tasks[i].status.running() {
                        actions.push(Action::Stop(id));
                    }
                },
                Signal::Continue => {
                    if self.tasks[i].status.paused() {
                        actions.push(Action::Continue(id));
                    }
                },
                Signal::Kill { children } => {
                    if self.tasks[i].status.active() {
                        actions.push(Action::Kill { id, children });
                    }
                },
            }
            proof {
                assert(actions@ =~= signals(self.tasks@.take(i + 1), signal));
            }
            i += 1;
        }
        proof {
            assert(self.tasks@.take(i as int) =~= self.tasks@);
        }
        actions
    }
}

impl TaskHandler {
    /// Takes a step for each of the named tasks in turn, where it applies.
    pub fn apply_each(&mut self, state: &mut State, ids: &Vec<usize>, step: Step, now: u64) -> (actions:
        Vec<Action>)
        requires
            old(state).wf(),
            old(self).tracks(*old(state)),
        ensures
            final(state).wf(),
            final(self).tracks(*final(state)),
            final(state).same_frame(*old(state)),
            final(state).tasks@ == each(
                old(state).tasks@,
                old(state).generation,
                ids@,
                step,
                now,
            ).0,
            final(state).generation == each(
                old(state).tasks@,
                old(state).generation,
                ids@,
                step,
                now,
            ).1,
            actions@ == each(old(state).tasks@, old(state).generation, ids@, step, now).2,
    {
        let mut actions: Vec<Action> = Vec::new();
        let mut k: usize = 0;
        proof {
            assert(ids@.skip(0) =~= ids@);
        }
        while k < ids.len()
            invariant
                k <= ids@.len(),
                state.wf(),
                self.tracks(*state),
                state.same_frame(*old(state)),
                each(state.tasks@, state.generation, ids@.skip(k as int), step, now).0 == each(
                    old(state).tasks@,
                    old(state).generation,
                    ids@,
                    step,
                    now,
                ).0,
                each(state.tasks@, state.generation, ids@.skip(k as int), step, now).1 == each(
                    old(state).tasks@,
                    old(state).generation,
                    ids@,
                    step,
                    now,
                ).1,
                actions@ + each(state.tasks@, state.generation, ids@.skip(k as int), step, now).2
                    == each(old(state).tasks@, old(state).generation, ids@, step, now).2,
            decreases ids@.len() - k,
        {
            let id = ids[k];
            let ghost tasks0 = state.tasks@;
            let ghost generation0 = state.generation;
            let ghost actions0 = actions@;
            let ghost rest = ids@.skip(k as int);
            proof {
                assert(rest[0] == id);
                assert(rest.drop_first() =~= ids@.skip(k + 1));
            }
            match step {
                Step::Start => {
                    if self.start(state, id, now).is_ok() {
                        actions.push(Action::Spawn(id));
                    }
                },
                Step::Pause => {
                    if state.pause_task(id).is_ok() {
                        actions.push(Action::Stop(id));
                    }
                },
                Step::Kill { children } => {
                    if state.can_kill(id).is_ok() {
                        actions.push(Action::Kill { id, children });
                    }
                },
            }
            proof {
                let after = each(state.tasks@, state.generation, ids@.skip(k + 1), step, now);
                if step_applies(tasks0, id, step) {
                    assert(state.tasks@ == step_tasks(tasks0, id, step, now));
                    assert(state.generation == step_generation(generation0, step));
                    assert(actions@ + after.2 =~= actions0 + (seq![step_action(id, step)]
                        + after.2));
                } else {
                    assert(state.tasks@ == tasks0);
                    assert(actions@ == actions0);
                }
            }
            k += 1;
        }
        proof {
            assert(ids@.skip(k as int) =~= Seq::<usize>::empty());
            assert(actions@ + Seq::<Action>::empty() =~= actions@);
        }
        actions
    }

    /// Handles one message: changes the store and the book as the message
    /// asks, and returns what the caller has to do to the children.
    pub fn handle(&mut self, state: &mut State, message: Message, now: u64) -> (actions: Vec<
        Action,
    >)
        requires
            old(state).wf(),
            old(self).tracks(*old(state)),
        ensures
            final(state).wf(),
            final(self).tracks(*final(state)),
            final(state).tasks@ == outcome(
                old(state).tasks@,
                old(state).generation,
                message,
                now,
            ).0,
            final(state).generation == outcome(
                old(state).tasks@,
                old(state).generation,
                message,
                now,
            ).1,
            actions@ == outcome(old(state).tasks@, old(state).generation, message, now).2,
            final(state).running == running_after(old(state).running, message),
            final(state).shutting_down == (old(state).shutting_down
                || message is DaemonShutdown),
            final(state).groups == old(state).groups,
            final(state).next_id == old(state).next_id,
            final(state).order@ == if message is Reset {
                Seq::<usize>::empty()
            } else {
                old(state).order@
            },
    {
        match message {
            Message::Start(Some(ids)) => self.apply_each(state, &ids, Step::Start, now),
            Message::Start(None) => {
                let actions = state.signal_all(Signal::Continue);
                state.resume_all();
                proof {
                    assert(state.tasks@ =~= Seq::new(
                        old(state).tasks@.len(),
                        |i: int| task_resumed(old(state).tasks@[i]),
                    ));
                }
                actions
            },
            Message::Pause { ids: Some(ids), wait } => {
                if wait {
                    Vec::new()
                } else {
                    self.apply_each(state, &ids, Step::Pause, now)
                }
            },
            Message::Pause { ids: None, wait } => {
                let actions = if wait {
                    Vec::new()
                } else {
                    state.signal_all(Signal::Stop)
                };
                state.pause_all(wait);
                proof {
                    assert(state.tasks@ =~= Seq::new(
                        old(state).tasks@.len(),
                        |i: int| task_paused(old(state).tasks@[i], wait),
                    ));
                }
                actions
            },
            Message::Kill { ids: Some(ids), children } => self.apply_each(
                state,
                &ids,
                Step::Kill { children },
                now,
            ),
            Message::Kill { ids: None, children } => state.signal_all(Signal::Kill { children }),
            Message::Send { id, input } => {
                let mut actions: Vec<Action> = Vec::new();
                if state.can_send(id).is_ok() {
                    actions.push(Action::Write { id, input });
                }
                actions
            },
            Message::Reset => {
                let actions = state.signal_all(Signal::Kill { children: true });
                self.reset(state);
                proof {
                    assert(state.tasks@ =~= Seq::<Task>::empty());
                    assert(state.order@ =~= Seq::<usize>::empty());
                }
                actions
            },
            Message::DaemonShutdown { kill } => {
                let actions = if kill {
                    state.signal_all(Signal::Kill { children: true })
                } else {
                    Vec::new()
                };
                state.begin_shutdown();
                actions
            },
        }
    }
}

} // verus!
