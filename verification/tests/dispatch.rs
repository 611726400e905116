use pueued::dispatch::{Action, Message, Signal, Step};
use pueued::handler::TaskHandler;
use pueued::state::State;
use pueued::task::{result_of_exit, Error, TaskResult, TaskStatus};

fn put(state: &mut State, deps: Vec<usize>) -> usize {
    state
        .add_task(
            "true".to_string(),
            "/".to_string(),
            Vec::new(),
            "default".to_string(),
            deps,
            None,
            None,
            false,
        )
        .unwrap()
}

fn three_with_two_live() -> (State, TaskHandler) {
    let mut state = State::new();
    let mut handler = TaskHandler::new();
    state.set_limit(&"default".to_string(), 2).unwrap();
    put(&mut state, vec![]);
    put(&mut state, vec![]);
    put(&mut state, vec![]);
    handler.spawn_next(&mut state, 0);
    handler.spawn_next(&mut state, 0);
    state.pause_task(1).unwrap();
    (state, handler)
}

#[test]
fn exit_codes_become_results() {
    assert_eq!(result_of_exit(Some(0)), TaskResult::Success);
    assert_eq!(result_of_exit(Some(1)), TaskResult::Failed(1));
    assert_eq!(result_of_exit(Some(-7)), TaskResult::Failed(-7));
    assert_eq!(result_of_exit(None), TaskResult::Killed);
}

#[test]
fn explicit_start_needs_finished_dependencies() {
    let mut state = State::new();
    let mut handler = TaskHandler::new();
    put(&mut state, vec![]);
    put(&mut state, vec![0]);
    let before = state.clone();
    assert_eq!(state.start_task(1, 5), Err(Error::WrongState));
    assert_eq!(handler.start(&mut state, 1, 5), Err(Error::WrongState));
    assert_eq!(state, before);
    assert_eq!(handler.start(&mut state, 0, 5), Ok(()));
    assert_eq!(handler.start(&mut state, 1, 5), Err(Error::WrongState));
    handler.reap(&mut state, 0, TaskResult::Success, 6).unwrap();
    assert_eq!(handler.start(&mut state, 1, 7), Ok(()));
    assert_eq!(state.tasks[1].status, TaskStatus::Running);
}

#[test]
fn start_message_spawns_what_can_start() {
    let mut state = State::new();
    let mut handler = TaskHandler::new();
    put(&mut state, vec![]);
    put(&mut state, vec![0]);
    put(&mut state, vec![]);
    let actions = handler.handle(&mut state, Message::Start(Some(vec![2, 1, 9, 0, 2])), 3);
    assert_eq!(actions, vec![Action::Spawn(2), Action::Spawn(0)]);
    assert_eq!(state.tasks[0].status, TaskStatus::Running);
    assert_eq!(state.tasks[1].status, TaskStatus::Queued);
    assert_eq!(state.tasks[2].status, TaskStatus::Running);
    assert_eq!(state.tasks[2].start, Some(3));
    assert_eq!(state.generation, 5);
    assert!(handler.in_step(&state));
}

#[test]
fn resume_message_continues_the_paused() {
    let (mut state, mut handler) = three_with_two_live();
    state.pause_all(true);
    let actions = handler.handle(&mut state, Message::Start(None), 1);
    assert_eq!(actions, vec![Action::Continue(1)]);
    assert!(state.running);
    assert_eq!(state.tasks[1].status, TaskStatus::Running);
    assert!(handler.in_step(&state));
}

#[test]
fn pause_message_stops_the_running() {
    let (mut state, mut handler) = three_with_two_live();
    let before = state.clone();
    let waited = Message::Pause { ids: Some(vec![0]), wait: true };
    assert_eq!(handler.handle(&mut state, waited, 1), Vec::<Action>::new());
    assert_eq!(state, before);
    let named = Message::Pause { ids: Some(vec![1, 2, 0, 0]), wait: false };
    assert_eq!(handler.handle(&mut state, named, 1), vec![Action::Stop(0)]);
    assert_eq!(state.tasks[0].status, TaskStatus::Paused);
    assert!(state.running);

    let (mut state, mut handler) = three_with_two_live();
    let all_waiting = Message::Pause { ids: None, wait: true };
    assert_eq!(handler.handle(&mut state, all_waiting, 1), Vec::<Action>::new());
    assert!(!state.running);
    assert_eq!(state.tasks[0].status, TaskStatus::Running);
    let all = Message::Pause { ids: None, wait: false };
    assert_eq!(handler.handle(&mut state, all, 1), vec![Action::Stop(0)]);
    assert_eq!(state.tasks[0].status, TaskStatus::Paused);
    assert!(handler.in_step(&state));
}

#[test]
fn kill_message_reaches_live_tasks_only() {
    let (mut state, mut handler) = three_with_two_live();
    let before = state.clone();
    let named = Message::Kill { ids: Some(vec![2, 1, 5]), children: false };
    assert_eq!(
        handler.handle(&mut state, named, 1),
        vec![Action::Kill { id: 1, children: false }]
    );
    let all = Message::Kill { ids: None, children: true };
    assert_eq!(
        handler.handle(&mut state, all, 1),
        vec![Action::Kill { id: 0, children: true }, Action::Kill { id: 1, children: true }]
    );
    assert_eq!(state, before);
    assert!(handler.has_child(0));
}

#[test]
fn send_message_writes_to_a_running_task() {
    let (mut state, mut handler) = three_with_two_live();
    let before = state.clone();
    let send = |id: usize| Message::Send { id, input: "y\n".to_string() };
    assert_eq!(
        handler.handle(&mut state, send(0), 1),
        vec![Action::Write { id: 0, input: "y\n".to_string() }]
    );
    assert_eq!(handler.handle(&mut state, send(1), 1), Vec::<Action>::new());
    assert_eq!(handler.handle(&mut state, send(2), 1), Vec::<Action>::new());
    assert_eq!(handler.handle(&mut state, send(8), 1), Vec::<Action>::new());
    assert_eq!(state, before);
}

#[test]
fn reset_message_kills_and_drops_everything() {
    let (mut state, mut handler) = three_with_two_live();
    let actions = handler.handle(&mut state, Message::Reset, 1);
    assert_eq!(
        actions,
        vec![Action::Kill { id: 0, children: true }, Action::Kill { id: 1, children: true }]
    );
    assert_eq!(state.tasks.len(), 0);
    assert_eq!(state.order.len(), 0);
    assert_eq!(state.next_id, 3);
    assert_eq!(handler.child_count(), 0);
}

#[test]
fn shutdown_message_follows_the_policy() {
    let (mut state, mut handler) = three_with_two_live();
    let actions = handler.handle(&mut state, Message::DaemonShutdown { kill: false }, 1);
    assert_eq!(actions, Vec::<Action>::new());
    assert!(state.shutting_down);
    assert!(!state.running);
    let (mut state, mut handler) = three_with_two_live();
    let actions = handler.handle(&mut state, Message::DaemonShutdown { kill: true }, 1);
    assert_eq!(
        actions,
        vec![Action::Kill { id: 0, children: true }, Action::Kill { id: 1, children: true }]
    );
    assert!(state.shutting_down);
    assert_eq!(state.tasks[0].status, TaskStatus::Running);
}

#[test]
fn signals_and_steps_by_hand() {
    let (mut state, mut handler) = three_with_two_live();
    assert_eq!(state.signal_all(Signal::Stop), vec![Action::Stop(0)]);
    assert_eq!(state.signal_all(Signal::Continue), vec![Action::Continue(1)]);
    assert_eq!(
        handler.apply_each(&mut state, &vec![2, 2], Step::Start, 4),
        vec![Action::Spawn(2)]
    );
    assert_eq!(state.tasks[2].start, Some(4));
    assert!(handler.in_step(&state));
}
