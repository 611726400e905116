use pueued::handler::TaskHandler;
use pueued::state::State;
use pueued::task::{Error, TaskResult, TaskStatus};

fn submit(state: &mut State, command: &str, group: &str, deps: Vec<usize>) -> Result<usize, Error> {
    state.add_task(
        command.to_string(),
        "/tmp".to_string(),
        Vec::new(),
        group.to_string(),
        deps,
        None,
        None,
        false,
    )
}

fn status(state: &State, id: usize) -> TaskStatus {
    let p = state.find_task(id).unwrap();
    state.tasks[p].status.clone()
}

#[test]
fn basic_queue_runs_one_at_a_time() {
    let mut state = State::new();
    let mut handler = TaskHandler::new();
    for _ in 0..3 {
        submit(&mut state, "sleep 1", "default", vec![]).unwrap();
    }
    for id in 0..3usize {
        assert_eq!(handler.spawn_next(&mut state, 10), Some(id));
        assert_eq!(handler.spawn_next(&mut state, 10), None);
        assert_eq!(state.count_active(&"default".to_string()), 1);
        assert_eq!(handler.reap(&mut state, id, TaskResult::Success, 11), Ok(()));
    }
    assert_eq!(handler.spawn_next(&mut state, 12), None);
    for id in 0..3usize {
        assert_eq!(status(&state, id), TaskStatus::Done(TaskResult::Success));
    }
    assert_eq!(handler.child_count(), 0);
}

#[test]
fn parallel_limit_three_runs_all_at_once() {
    let mut state = State::new();
    let mut handler = TaskHandler::new();
    state.set_limit(&"default".to_string(), 3).unwrap();
    for _ in 0..3 {
        submit(&mut state, "sleep 1", "default", vec![]).unwrap();
    }
    assert_eq!(handler.spawn_next(&mut state, 1), Some(0));
    assert_eq!(handler.spawn_next(&mut state, 1), Some(1));
    assert_eq!(handler.spawn_next(&mut state, 1), Some(2));
    assert_eq!(handler.spawn_next(&mut state, 1), None);
    assert_eq!(handler.child_count(), 3);
    for id in 0..3usize {
        assert_eq!(status(&state, id), TaskStatus::Running);
        assert_eq!(handler.reap(&mut state, id, TaskResult::Success, 2), Ok(()));
        assert_eq!(status(&state, id), TaskStatus::Done(TaskResult::Success));
    }
}

#[test]
fn dependency_failure_cascades() {
    let mut state = State::new();
    let mut handler = TaskHandler::new();
    state.set_limit(&"default".to_string(), 3).unwrap();
    let a = submit(&mut state, "false", "default", vec![]).unwrap();
    let b = submit(&mut state, "true", "default", vec![a]).unwrap();
    let c = submit(&mut state, "true", "default", vec![b]).unwrap();
    assert_eq!(handler.spawn_next(&mut state, 1), Some(a));
    assert_eq!(handler.spawn_next(&mut state, 1), None);
    assert!(!handler.has_child(b));
    assert!(!handler.has_child(c));
    assert_eq!(handler.reap(&mut state, a, TaskResult::Failed(1), 2), Ok(()));
    assert_eq!(status(&state, a), TaskStatus::Done(TaskResult::Failed(1)));
    assert_eq!(status(&state, b), TaskStatus::Done(TaskResult::DependencyFailed));
    assert_eq!(status(&state, c), TaskStatus::Done(TaskResult::DependencyFailed));
    assert_eq!(handler.spawn_next(&mut state, 3), None);
    assert!(!handler.has_child(b));
    assert!(!handler.has_child(c));
    assert_eq!(state.tasks[1].start, None);
    assert_eq!(state.tasks[2].end, Some(2));
}

#[test]
fn dependants_start_after_success() {
    let mut state = State::new();
    let mut handler = TaskHandler::new();
    let a = submit(&mut state, "true", "default", vec![]).unwrap();
    let b = submit(&mut state, "true", "default", vec![a]).unwrap();
    assert_eq!(handler.spawn_next(&mut state, 1), Some(a));
    assert_eq!(handler.reap(&mut state, a, TaskResult::Success, 2), Ok(()));
    assert_eq!(status(&state, b), TaskStatus::Queued);
    assert_eq!(handler.spawn_next(&mut state, 3), Some(b));
}

#[test]
fn pause_and_resume() {
    let mut state = State::new();
    let mut handler = TaskHandler::new();
    let id = submit(&mut state, "sleep 5", "default", vec![]).unwrap();
    assert_eq!(handler.spawn_next(&mut state, 0), Some(id));
    assert_eq!(state.pause_task(id), Ok(()));
    assert_eq!(status(&state, id), TaskStatus::Paused);
    assert!(handler.has_child(id));
    assert_eq!(state.pause_task(id), Err(Error::WrongState));
    state.resume_all();
    assert_eq!(status(&state, id), TaskStatus::Running);
    assert_eq!(handler.reap(&mut state, id, TaskResult::Success, 6), Ok(()));
    assert_eq!(status(&state, id), TaskStatus::Done(TaskResult::Success));
    assert_eq!(state.tasks[0].start, Some(0));
    assert_eq!(state.tasks[0].end, Some(6));
}

#[test]
fn paused_task_keeps_its_slot() {
    let mut state = State::new();
    let mut handler = TaskHandler::new();
    let a = submit(&mut state, "sleep 5", "default", vec![]).unwrap();
    submit(&mut state, "sleep 5", "default", vec![]).unwrap();
    assert_eq!(handler.spawn_next(&mut state, 0), Some(a));
    assert_eq!(state.pause_task(a), Ok(()));
    assert_eq!(handler.spawn_next(&mut state, 1), None);
    assert_eq!(state.resume_task(a), Ok(()));
    assert_eq!(state.resume_task(a), Err(Error::WrongState));
}

#[test]
fn group_removal_is_safe() {
    let mut state = State::new();
    let mut handler = TaskHandler::new();
    let g = "g".to_string();
    assert_eq!(state.add_group("g".to_string(), 1), Ok(()));
    let id = submit(&mut state, "sleep 60", "g", vec![]).unwrap();
    assert_eq!(state.remove_group(&g), Err(Error::WrongState));
    assert_eq!(handler.spawn_next(&mut state, 0), Some(id));
    assert_eq!(state.remove_group(&g), Err(Error::WrongState));
    assert_eq!(state.can_kill(id), Ok(()));
    assert_eq!(handler.reap(&mut state, id, TaskResult::Killed, 1), Ok(()));
    assert_eq!(state.remove_group(&g), Ok(()));
    assert_eq!(state.groups.len(), 1);
    assert_eq!(state.tasks[0].group, "default");
    assert!(state.is_valid());
}

#[test]
fn crash_recovery_kills_and_keeps_ids() {
    let mut state = State::new();
    let mut handler = TaskHandler::new();
    state.set_limit(&"default".to_string(), 2).unwrap();
    let a = submit(&mut state, "sleep 600", "default", vec![]).unwrap();
    let b = submit(&mut state, "sleep 600", "default", vec![]).unwrap();
    let c = submit(&mut state, "sleep 600", "default", vec![]).unwrap();
    assert_eq!(handler.spawn_next(&mut state, 0), Some(a));
    assert_eq!(handler.spawn_next(&mut state, 0), Some(b));
    assert_eq!(state.pause_task(b), Ok(()));
    let mut restored = state.clone();
    assert!(restored.is_valid());
    restored.recover();
    let restarted = TaskHandler::new();
    assert_eq!(status(&restored, a), TaskStatus::Done(TaskResult::Killed));
    assert_eq!(status(&restored, b), TaskStatus::Done(TaskResult::Killed));
    assert_eq!(status(&restored, c), TaskStatus::Queued);
    assert!(restored.running);
    assert!(!restarted.has_child(a));
    assert_eq!(submit(&mut restored, "true", "default", vec![]), Ok(c + 1));
}

#[test]
fn zero_limit_stops_new_spawns() {
    let mut state = State::new();
    let mut handler = TaskHandler::new();
    let a = submit(&mut state, "sleep 1", "default", vec![]).unwrap();
    submit(&mut state, "sleep 1", "default", vec![]).unwrap();
    assert_eq!(handler.spawn_next(&mut state, 0), Some(a));
    assert_eq!(state.set_limit(&"default".to_string(), 0), Ok(()));
    assert_eq!(status(&state, a), TaskStatus::Running);
    assert_eq!(handler.reap(&mut state, a, TaskResult::Success, 1), Ok(()));
    assert_eq!(state.count_active(&"default".to_string()), 0);
    assert_eq!(handler.spawn_next(&mut state, 2), None);
    assert_eq!(state.next_to_spawn(), None);
}

#[test]
fn registry_follows_running_and_paused() {
    let mut state = State::new();
    let mut handler = TaskHandler::new();
    state.set_limit(&"default".to_string(), 2).unwrap();
    let a = submit(&mut state, "a", "default", vec![]).unwrap();
    let b = submit(&mut state, "b", "default", vec![]).unwrap();
    let c = submit(&mut state, "c", "default", vec![]).unwrap();
    handler.spawn_next(&mut state, 0);
    handler.spawn_next(&mut state, 0);
    state.pause_task(b).unwrap();
    for id in [a, b, c] {
        let p = state.find_task(id).unwrap();
        assert_eq!(handler.has_child(id), state.tasks[p].status.active());
    }
    handler.reap(&mut state, a, TaskResult::Failed(2), 1).unwrap();
    for id in [a, b, c] {
        let p = state.find_task(id).unwrap();
        assert_eq!(handler.has_child(id), state.tasks[p].status.active());
    }
    assert_eq!(handler.reap(&mut state, a, TaskResult::Success, 1), Err(Error::WrongState));
    assert_eq!(handler.reap(&mut state, 99, TaskResult::Success, 1), Err(Error::NotFound));
}

#[test]
fn explicit_start_ignores_the_limit() {
    let mut state = State::new();
    let mut handler = TaskHandler::new();
    let a = submit(&mut state, "a", "default", vec![]).unwrap();
    let b = state
        .add_task(
            "b".to_string(),
            "/".to_string(),
            Vec::new(),
            "default".to_string(),
            Vec::new(),
            None,
            None,
            true,
        )
        .unwrap();
    assert_eq!(status(&state, b), TaskStatus::Stashed);
    assert_eq!(handler.spawn_next(&mut state, 0), Some(a));
    assert_eq!(handler.spawn_next(&mut state, 0), None);
    assert_eq!(handler.start(&mut state, b, 5), Ok(()));
    assert_eq!(status(&state, b), TaskStatus::Running);
    assert!(handler.has_child(b));
    assert_eq!(handler.start(&mut state, b, 5), Err(Error::WrongState));
    assert_eq!(handler.start(&mut state, 42, 5), Err(Error::NotFound));
    assert_eq!(state.tasks[1].start, Some(5));
}

#[test]
fn failed_spawn_ends_the_task_and_its_dependants() {
    let mut state = State::new();
    let mut handler = TaskHandler::new();
    let a = submit(&mut state, "no-such-binary", "default", vec![]).unwrap();
    let b = submit(&mut state, "true", "default", vec![a]).unwrap();
    assert_eq!(handler.spawn_next(&mut state, 0), Some(a));
    let reason = TaskResult::FailedToSpawn("not found".to_string());
    assert_eq!(handler.reap(&mut state, a, reason.clone(), 0), Ok(()));
    assert_eq!(status(&state, a), TaskStatus::Done(reason));
    assert_eq!(status(&state, b), TaskStatus::Done(TaskResult::DependencyFailed));
    assert!(!handler.has_child(a));
}

#[test]
fn shutdown_waits_for_the_last_reap() {
    let mut state = State::new();
    let mut handler = TaskHandler::new();
    let a = submit(&mut state, "sleep 1", "default", vec![]).unwrap();
    submit(&mut state, "sleep 1", "default", vec![]).unwrap();
    handler.spawn_next(&mut state, 0);
    assert!(!state.shutdown_complete());
    state.begin_shutdown();
    assert!(!state.running);
    assert!(!state.shutdown_complete());
    assert_eq!(submit(&mut state, "true", "default", vec![]), Err(Error::ShutdownInProgress));
    assert_eq!(handler.spawn_next(&mut state, 1), None);
    handler.reap(&mut state, a, TaskResult::Killed, 1).unwrap();
    assert!(state.shutdown_complete());
}
