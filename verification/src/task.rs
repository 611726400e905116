use vstd::prelude::*;

verus! {

/// How a task ended.
#[derive(Clone, Debug, PartialEq, Eq)]
pub enum TaskResult {
    Success,
    Failed(i32),
    FailedToSpawn(String),
    Killed,
    DependencyFailed,
}

/// The result that the exit of a child stands for: code 0 is success, any
/// other code a failure with that code, and no code (the child was ended by
/// a signal) means killed.
pub open spec fn exit_result(code: Option<i32>) -> TaskResult {
    match code {
        Some(c) => if c == 0 {
            TaskResult::Success
        } else {
            TaskResult::Failed(c)
        },
        None => TaskResult::Killed,
    }
}

/// Maps the exit of a child to the result of its task.
pub fn result_of_exit(code: Option<i32>) -> (r: TaskResult)
    ensures
        r == exit_result(code),
{
    match code {
        Some(c) => {
            if c == 0 {
                TaskResult::Success
            } else {
                TaskResult::Failed(c)
            }
        },
        None => TaskResult::Killed,
    }
}

/// Where a task stands in its life.
#[derive(Clone, Debug, PartialEq, Eq)]
pub enum TaskStatus {
    Queued,
    Stashed,
    Locked,
    Running,
    Paused,
    Done(TaskResult),
}

impl TaskStatus {
    /// The task owns a live child process.
    pub open spec fn is_active(self) -> bool {
        self is Running || self is Paused
    }

    /// The task has not been started yet.
    pub open spec fn is_waiting(self) -> bool {
        self is Queued || self is Stashed || self is Locked
    }

    /// The task ended well.
    pub open spec fn is_success(self) -> bool {
        self == TaskStatus::Done(TaskResult::Success)
    }

    /// The task ended, and not well.
    pub open spec fn is_failure(self) -> bool {
        self is Done && !self.is_success()
    }

    /// Tells whether the task is running or paused.
    pub fn active(&self) -> (b: bool)
        ensures
            b == self.is_active(),
    {
        match self {
            TaskStatus::Running => true,
            TaskStatus::Paused => true,
            _ => false,
        }
    }

    /// Tells whether the task has not been started yet.
    pub fn waiting(&self) -> (b: bool)
        ensures
            b == self.is_waiting(),
    {
        match self {
            TaskStatus::Queued => true,
            TaskStatus::Stashed => true,
            TaskStatus::Locked => true,
            _ => false,
        }
    }

    /// Tells whether the task is `Queued`.
    pub fn queued(&self) -> (b: bool)
        ensures
            b == (*self is Queued),
    {
        match self {
            TaskStatus::Queued => true,
            _ => false,
        }
    }

    /// Tells whether the task is `Stashed`.
    pub fn stashed(&self) -> (b: bool)
        ensures
            b == (*self is Stashed),
    {
        match self {
            TaskStatus::Stashed => true,
            _ => false,
        }
    }

    /// Tells whether the task is `Running`.
    pub fn running(&self) -> (b: bool)
        ensures
            b == (*self is Running),
    {
        match self {
            TaskStatus::Running => true,
            _ => false,
        }
    }

    /// Tells whether the task is `Paused`.
    pub fn paused(&self) -> (b: bool)
        ensures
            b == (*self is Paused),
    {
        match self {
            TaskStatus::Paused => true,
            _ => false,
        }
    }

    /// Tells whether the task is `Locked`.
    pub fn locked(&self) -> (b: bool)
        ensures
            b == (*self is Locked),
    {
        match self {
            TaskStatus::Locked => true,
            _ => false,
        }
    }

    /// Tells whether the task has ended.
    pub fn done(&self) -> (b: bool)
        ensures
            b == (*self is Done),
    {
        match self {
            TaskStatus::Done(_) => true,
            _ => false,
        }
    }

    /// Tells whether the task ended well.
    pub fn success(&self) -> (b: bool)
        ensures
            b == self.is_success(),
    {
        match self {
            TaskStatus::Done(TaskResult::Success) => true,
            _ => false,
        }
    }

    /// Tells whether the task ended, and not well.
    pub fn failure(&self) -> (b: bool)
        ensures
            b == self.is_failure(),
    {
        match self {
            TaskStatus::Done(TaskResult::Success) => false,
            TaskStatus::Done(_) => true,
            _ => false,
        }
    }
}

/// One queued shell command and what is known about it.
#[derive(Clone, Debug, PartialEq, Eq)]
pub struct Task {
    pub id: usize,
    pub command: String,
    pub path: String,
    pub envs: Vec<(String, String)>,
    pub group: String,
    pub dependencies: Vec<usize>,
    pub enqueue_at: Option<u64>,
    pub label: Option<String>,
    pub status: TaskStatus,
    pub start: Option<u64>,
    pub end: Option<u64>,
    pub editing: bool,
}

impl Task {
    /// The two agree on what the store's invariants read: id, group and
    /// dependencies.
    pub open spec fn same_record(self, other: Task) -> bool {
        &&& self.id == other.id
        &&& self.group == other.group
        &&& self.dependencies == other.dependencies
    }
}

/// What the core reports to a client when it refuses a request.
#[derive(Clone, Copy, Debug, PartialEq, Eq, Structural)]
pub enum Error {
    /// No task or group of that id or name.
    NotFound,
    /// The task or group is not in a state that allows the operation.
    WrongState,
    /// A child could not be started. The store records this in the task,
    /// as `FailedToSpawn`; the variant is for the caller's reports.
    SpawnFailure,
    /// A log file or the state file could not be read or written; raised
    /// by the caller that does so.
    IoFailure,
    /// A malformed message; raised by the caller that reads the socket.
    ProtocolFailure,
    /// The daemon is shutting down and takes no new task.
    ShutdownInProgress,
}

} // verus!
