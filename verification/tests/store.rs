use pueued::handler::TaskHandler;
use pueued::state::{GroupStatus, State};
use pueued::task::{Error, TaskResult, TaskStatus};

fn add(state: &mut State, command: &str, group: &str, deps: Vec<usize>, at: Option<u64>) -> Result<usize, Error> {
    state.add_task(
        command.to_string(),
        "/".to_string(),
        vec![("KEY".to_string(), "value".to_string())],
        group.to_string(),
        deps,
        at,
        Some("label".to_string()),
        false,
    )
}

#[test]
fn new_store_has_the_default_group() {
    let state = State::new();
    assert!(state.is_valid());
    assert_eq!(state.groups.len(), 1);
    assert_eq!(state.groups[0].name, "default");
    assert_eq!(state.groups[0].limit, 1);
    assert_eq!(state.groups[0].status, GroupStatus::Running);
    assert!(state.running);
    assert_eq!(state.next_id, 0);
    assert_eq!(state.generation, 0);
    assert!(!state.needs_flush(0));
}

#[test]
fn ids_grow_and_are_not_reused() {
    let mut state = State::new();
    assert_eq!(add(&mut state, "a", "default", vec![], None), Ok(0));
    assert_eq!(add(&mut state, "b", "default", vec![], None), Ok(1));
    assert_eq!(state.remove_task(1), Ok(()));
    assert_eq!(add(&mut state, "c", "default", vec![], None), Ok(2));
    state.reset();
    assert_eq!(state.tasks.len(), 0);
    assert_eq!(add(&mut state, "d", "default", vec![], None), Ok(3));
    assert!(state.is_valid());
}

#[test]
fn add_task_checks_group_and_dependencies() {
    let mut state = State::new();
    assert_eq!(add(&mut state, "a", "nope", vec![], None), Err(Error::NotFound));
    assert_eq!(add(&mut state, "a", "default", vec![0], None), Err(Error::NotFound));
    assert_eq!(state.generation, 0);
    assert_eq!(add(&mut state, "a", "default", vec![], None), Ok(0));
    assert_eq!(add(&mut state, "b", "default", vec![0, 7], None), Err(Error::NotFound));
    assert_eq!(add(&mut state, "b", "default", vec![0], None), Ok(1));
    assert_eq!(state.generation, 2);
    assert!(state.needs_flush(0));
    assert!(!state.needs_flush(2));
    assert_eq!(state.tasks[1].dependencies, vec![0]);
    assert_eq!(state.tasks[1].command, "b");
    assert_eq!(state.tasks[1].label, Some("label".to_string()));
}

#[test]
fn deferred_task_is_locked_until_its_time() {
    let mut state = State::new();
    let mut handler = TaskHandler::new();
    let id = add(&mut state, "a", "default", vec![], Some(100)).unwrap();
    assert_eq!(state.tasks[0].status, TaskStatus::Locked);
    assert_eq!(handler.spawn_next(&mut state, 50), None);
    let before = state.generation;
    state.promote_locked(99);
    assert_eq!(state.tasks[0].status, TaskStatus::Locked);
    assert_eq!(state.generation, before);
    state.promote_locked(100);
    assert_eq!(state.tasks[0].status, TaskStatus::Queued);
    assert_eq!(state.generation, before + 1);
    assert_eq!(handler.spawn_next(&mut state, 100), Some(id));
}

#[test]
fn remove_task_refuses_live_tasks() {
    let mut state = State::new();
    let mut handler = TaskHandler::new();
    add(&mut state, "a", "default", vec![], None).unwrap();
    assert_eq!(state.remove_task(5), Err(Error::NotFound));
    handler.spawn_next(&mut state, 0);
    assert_eq!(state.remove_task(0), Err(Error::WrongState));
    state.pause_task(0).unwrap();
    assert_eq!(state.remove_task(0), Err(Error::WrongState));
    handler.reap(&mut state, 0, TaskResult::Success, 1).unwrap();
    assert_eq!(state.remove_task(0), Ok(()));
    assert_eq!(state.tasks.len(), 0);
}

#[test]
fn groups_are_added_once_and_limited() {
    let mut state = State::new();
    assert_eq!(state.add_group("build".to_string(), 2), Ok(()));
    assert_eq!(state.add_group("build".to_string(), 3), Err(Error::WrongState));
    assert_eq!(state.add_group("default".to_string(), 3), Err(Error::WrongState));
    assert_eq!(state.groups[1].limit, 2);
    assert_eq!(state.set_limit(&"build".to_string(), 5), Ok(()));
    assert_eq!(state.groups[1].limit, 5);
    assert_eq!(state.groups[0].limit, 1);
    assert_eq!(state.set_limit(&"nope".to_string(), 5), Err(Error::NotFound));
    assert_eq!(state.remove_group(&"default".to_string()), Err(Error::WrongState));
    assert_eq!(state.remove_group(&"nope".to_string()), Err(Error::NotFound));
    assert_eq!(state.remove_group(&"build".to_string()), Ok(()));
    assert_eq!(state.find_group(&"build".to_string()), None);
    assert_eq!(state.find_group(&"default".to_string()), Some(0));
}

#[test]
fn groups_have_their_own_slots() {
    let mut state = State::new();
    let mut handler = TaskHandler::new();
    state.add_group("build".to_string(), 1).unwrap();
    add(&mut state, "a", "default", vec![], None).unwrap();
    add(&mut state, "b", "default", vec![], None).unwrap();
    add(&mut state, "c", "build", vec![], None).unwrap();
    assert_eq!(handler.spawn_next(&mut state, 0), Some(0));
    assert_eq!(handler.spawn_next(&mut state, 0), Some(2));
    assert_eq!(handler.spawn_next(&mut state, 0), None);
    assert_eq!(state.count_active(&"default".to_string()), 1);
    assert_eq!(state.count_active(&"build".to_string()), 1);
    assert_eq!(state.count_active(&"other".to_string()), 0);
}

#[test]
fn paused_group_spawns_nothing() {
    let mut state = State::new();
    let mut handler = TaskHandler::new();
    add(&mut state, "a", "default", vec![], None).unwrap();
    assert_eq!(state.set_group_status(&"default".to_string(), GroupStatus::Paused), Ok(()));
    assert_eq!(handler.spawn_next(&mut state, 0), None);
    assert!(!state.group_has_room(&"default".to_string()));
    assert_eq!(state.set_group_status(&"nope".to_string(), GroupStatus::Paused), Err(Error::NotFound));
    assert_eq!(state.set_group_status(&"default".to_string(), GroupStatus::Running), Ok(()));
    assert_eq!(handler.spawn_next(&mut state, 0), Some(0));
}

#[test]
fn paused_daemon_spawns_nothing() {
    let mut state = State::new();
    let mut handler = TaskHandler::new();
    state.set_limit(&"default".to_string(), 2).unwrap();
    add(&mut state, "a", "default", vec![], None).unwrap();
    add(&mut state, "b", "default", vec![], None).unwrap();
    handler.spawn_next(&mut state, 0);
    state.pause_all(true);
    assert_eq!(state.tasks[0].status, TaskStatus::Running);
    assert_eq!(handler.spawn_next(&mut state, 0), None);
    state.pause_all(false);
    assert_eq!(state.tasks[0].status, TaskStatus::Paused);
    assert_eq!(state.tasks[1].status, TaskStatus::Queued);
    state.resume_all();
    assert!(state.running);
    assert_eq!(state.tasks[0].status, TaskStatus::Running);
    assert_eq!(handler.spawn_next(&mut state, 0), Some(1));
}

#[test]
fn edited_task_is_skipped() {
    let mut state = State::new();
    let mut handler = TaskHandler::new();
    add(&mut state, "old", "default", vec![], None).unwrap();
    assert_eq!(state.begin_edit(3), Err(Error::NotFound));
    assert_eq!(state.begin_edit(0), Ok(()));
    assert_eq!(state.begin_edit(0), Err(Error::WrongState));
    assert!(!state.is_eligible(0));
    assert_eq!(handler.spawn_next(&mut state, 0), None);
    assert_eq!(handler.start(&mut state, 0, 0), Err(Error::WrongState));
    assert_eq!(state.start_task(0, 0), Err(Error::WrongState));
    assert_eq!(state.end_edit(0, Some("new".to_string())), Ok(()));
    assert_eq!(state.tasks[0].command, "new");
    assert_eq!(state.end_edit(0, None), Err(Error::WrongState));
    assert_eq!(state.begin_edit(0), Ok(()));
    assert_eq!(state.end_edit(0, None), Ok(()));
    assert_eq!(state.tasks[0].command, "new");
    assert_eq!(handler.spawn_next(&mut state, 0), Some(0));
    assert_eq!(state.begin_edit(0), Err(Error::WrongState));
}

#[test]
fn kill_and_send_need_a_live_task() {
    let mut state = State::new();
    let mut handler = TaskHandler::new();
    add(&mut state, "a", "default", vec![], None).unwrap();
    assert_eq!(state.can_kill(0), Err(Error::WrongState));
    assert_eq!(state.can_send(0), Err(Error::WrongState));
    assert_eq!(state.can_kill(1), Err(Error::NotFound));
    assert_eq!(state.can_send(1), Err(Error::NotFound));
    handler.spawn_next(&mut state, 0);
    assert_eq!(state.can_kill(0), Ok(()));
    assert_eq!(state.can_send(0), Ok(()));
    state.pause_task(0).unwrap();
    assert_eq!(state.can_kill(0), Ok(()));
    assert_eq!(state.can_send(0), Err(Error::WrongState));
}

#[test]
fn dependency_pass_settles_late_dependants() {
    let mut state = State::new();
    let mut handler = TaskHandler::new();
    add(&mut state, "false", "default", vec![], None).unwrap();
    handler.spawn_next(&mut state, 0);
    handler.reap(&mut state, 0, TaskResult::Failed(3), 1).unwrap();
    add(&mut state, "b", "default", vec![0], None).unwrap();
    add(&mut state, "c", "default", vec![1], None).unwrap();
    add(&mut state, "d", "default", vec![], None).unwrap();
    assert!(state.failed_dependency(1));
    assert!(!state.failed_dependency(2));
    assert!(!state.dependencies_done(1));
    assert_eq!(state.next_to_spawn(), Some(3));
    let before = state.generation;
    state.fail_dependants(9);
    assert_eq!(state.tasks[1].status, TaskStatus::Done(TaskResult::DependencyFailed));
    assert_eq!(state.tasks[2].status, TaskStatus::Done(TaskResult::DependencyFailed));
    assert_eq!(state.tasks[3].status, TaskStatus::Queued);
    assert_eq!(state.tasks[1].end, Some(9));
    assert_eq!(state.generation, before + 1);
    state.fail_dependants(10);
    assert_eq!(state.generation, before + 1);
}

#[test]
fn validity_check_finds_broken_stores() {
    let mut state = State::new();
    add(&mut state, "a", "default", vec![], None).unwrap();
    add(&mut state, "b", "default", vec![0], None).unwrap();
    assert!(state.is_valid());
    let mut s = state.clone();
    s.next_id = 1;
    assert!(!s.is_valid());
    let mut s = state.clone();
    s.tasks[1].id = 0;
    assert!(!s.is_valid());
    let mut s = state.clone();
    s.tasks[1].dependencies = vec![1];
    assert!(!s.is_valid());
    let mut s = state.clone();
    s.tasks[0].group = "gone".to_string();
    assert!(!s.is_valid());
    let mut s = state.clone();
    s.groups[0].name = "other".to_string();
    assert!(!s.is_valid());
    let mut s = state.clone();
    let copy = s.groups[0].clone();
    s.groups.push(copy);
    assert!(!s.is_valid());
    let mut s = state.clone();
    s.groups.clear();
    assert!(!s.is_valid());
    let mut s = state.clone();
    s.order = vec![0];
    assert!(!s.is_valid());
    let mut s = state.clone();
    s.order = vec![0, 1, 1];
    assert!(!s.is_valid());
    let mut s = state.clone();
    s.order = vec![0, 1, 2];
    assert!(!s.is_valid());
    let mut s = state.clone();
    s.order = vec![1, 0];
    assert!(s.is_valid());
}

#[test]
fn display_order_follows_creation_and_switches() {
    let mut state = State::new();
    let mut handler = TaskHandler::new();
    add(&mut state, "a", "default", vec![], None).unwrap();
    add(&mut state, "b", "default", vec![], None).unwrap();
    add(&mut state, "c", "default", vec![], None).unwrap();
    assert_eq!(state.order, vec![0, 1, 2]);
    assert_eq!(state.switch_tasks(0, 2), Ok(()));
    assert_eq!(state.order, vec![2, 1, 0]);
    assert_eq!(state.switch_tasks(1, 1), Ok(()));
    assert_eq!(state.order, vec![2, 1, 0]);
    assert_eq!(state.switch_tasks(1, 7), Err(Error::NotFound));
    assert_eq!(state.switch_tasks(7, 1), Err(Error::NotFound));
    assert_eq!(state.display_position(1), Some(1));
    assert_eq!(state.display_position(9), None);
    assert_eq!(handler.spawn_next(&mut state, 0), Some(0));
    handler.reap(&mut state, 0, TaskResult::Success, 1).unwrap();
    assert_eq!(state.remove_task(0), Ok(()));
    assert_eq!(state.order, vec![2, 1]);
    assert!(state.is_valid());
    handler.reset(&mut state);
    assert_eq!(state.order, Vec::<usize>::new());
    assert!(state.is_valid());
    assert!(handler.in_step(&state));
}

#[test]
fn stash_and_enqueue() {
    let mut state = State::new();
    let mut handler = TaskHandler::new();
    add(&mut state, "a", "default", vec![], None).unwrap();
    assert_eq!(state.enqueue_task(0, None), Err(Error::WrongState));
    assert_eq!(state.stash_task(0), Ok(()));
    assert_eq!(state.tasks[0].status, TaskStatus::Stashed);
    assert_eq!(state.stash_task(0), Err(Error::WrongState));
    assert_eq!(state.stash_task(4), Err(Error::NotFound));
    assert_eq!(handler.spawn_next(&mut state, 0), None);
    assert_eq!(state.enqueue_task(0, Some(30)), Ok(()));
    assert_eq!(state.tasks[0].status, TaskStatus::Locked);
    assert_eq!(state.tasks[0].enqueue_at, Some(30));
    assert_eq!(state.enqueue_task(0, None), Ok(()));
    assert_eq!(state.tasks[0].status, TaskStatus::Queued);
    assert_eq!(state.tasks[0].enqueue_at, None);
    assert_eq!(state.enqueue_task(4, None), Err(Error::NotFound));
    assert_eq!(handler.spawn_next(&mut state, 0), Some(0));
    assert_eq!(state.stash_task(0), Err(Error::WrongState));
}

#[test]
fn book_out_of_step_is_found() {
    let mut state = State::new();
    let mut handler = TaskHandler::new();
    add(&mut state, "a", "default", vec![], None).unwrap();
    assert!(handler.in_step(&state));
    handler.register(0);
    assert!(!handler.in_step(&state));
    handler.unregister(0);
    state.start_task(0, 1).unwrap();
    assert!(!handler.in_step(&state));
    assert!(state.has_active(0));
    assert!(!state.has_active(1));
    handler.register(0);
    assert!(handler.in_step(&state));
    handler.children.push(0);
    assert!(!handler.in_step(&state));
    handler.recover(&mut state);
    assert!(handler.in_step(&state));
    assert_eq!(state.tasks[0].status, TaskStatus::Done(TaskResult::Killed));
}

#[test]
fn generation_wraps() {
    let mut state = State::new();
    state.generation = u64::MAX;
    state.begin_shutdown();
    assert_eq!(state.generation, 0);
    assert!(state.needs_flush(u64::MAX));
}

#[test]
fn status_predicates() {
    assert!(TaskStatus::Running.active());
    assert!(TaskStatus::Paused.active());
    assert!(!TaskStatus::Queued.active());
    assert!(TaskStatus::Queued.waiting());
    assert!(TaskStatus::Stashed.waiting());
    assert!(TaskStatus::Locked.waiting());
    assert!(!TaskStatus::Done(TaskResult::Success).waiting());
    assert!(TaskStatus::Done(TaskResult::Success).success());
    assert!(!TaskStatus::Done(TaskResult::Success).failure());
    assert!(TaskStatus::Done(TaskResult::Killed).failure());
    assert!(TaskStatus::Done(TaskResult::Failed(0)).failure());
    assert!(TaskStatus::Done(TaskResult::DependencyFailed).done());
    assert!(!TaskStatus::Running.failure());
    assert!(TaskStatus::Queued.queued());
    assert!(TaskStatus::Locked.locked());
    assert!(TaskStatus::Paused.paused());
    assert!(TaskStatus::Running.running());
}

#[test]
fn registry_registers_once() {
    let mut handler = TaskHandler::new();
    handler.register(4);
    handler.register(4);
    handler.register(2);
    assert_eq!(handler.child_count(), 2);
    assert!(handler.has_child(4));
    handler.unregister(4);
    assert!(!handler.has_child(4));
    assert!(handler.has_child(2));
    handler.unregister(9);
    assert_eq!(handler.child_count(), 1);
    handler.clear();
    assert_eq!(handler.child_count(), 0);
}
