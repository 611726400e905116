use vstd::prelude::*;

verus! {

/// How much the daemon writes to its log.
#[derive(Clone, Copy, Debug, PartialEq, Eq, Structural)]
pub enum LogLevel {
    Error,
    Warn,
    Info,
    Debug,
}

/// The log level that a verbosity counter asks for.
pub open spec fn level_of(verbose: u8) -> LogLevel {
    if verbose == 0 {
        LogLevel::Error
    } else if verbose == 1 {
        LogLevel::Warn
    } else if verbose == 2 {
        LogLevel::Info
    } else {
        LogLevel::Debug
    }
}

/// Maps the verbosity counter of the command line to a log level.
pub fn log_level(verbose: u8) -> (level: LogLevel)
    ensures
        level == level_of(verbose),
{
    match verbose {
        0 => LogLevel::Error,
        1 => LogLevel::Warn,
        2 => LogLevel::Info,
        _ => LogLevel::Debug,
    }
}

/// The verbosity argument handed to the detached daemon: a dash and one
/// blank for each level of verbosity.
pub open spec fn verbosity_flag(verbose: u8) -> Seq<char> {
    seq!['-'] + Seq::new(verbose as nat, |i: int| ' ')
}

/// The arguments with which the daemon starts its detached copy: the port,
/// if one was given, and the verbosity, if it is not zero.
pub fn daemon_arguments(port: &Option<String>, verbose: u8) -> (arguments: Vec<String>)
    ensures
        arguments@.len() == (if port is Some {
            2int
        } else {
            0int
        }) + (if verbose > 0 {
            1int
        } else {
            0int
        }),
        port is Some ==> arguments@[0]@ == "--port"@ && arguments@[1]@ == port->0@,
        verbose > 0 ==> arguments@[arguments@.len() - 1]@ == verbosity_flag(verbose),
{
    let mut arguments: Vec<String> = Vec::new();
    match port {
        Some(p) => {
            arguments.push(String::from_str("--port"));
            arguments.push(p.clone());
        },
        None => {},
    }
    if verbose > 0 {
        let mut flag = String::from_str("-");
        proof {
            reveal_strlit("-");
            assert(flag@ =~= seq!['-'] + Seq::new(0nat, |i: int| ' '));
        }
        let mut i: u8 = 0;
        while i < verbose
            invariant
                i <= verbose,
                flag@ == seq!['-'] + Seq::new(i as nat, |j: int| ' '),
            decreases verbose - i,
        {
            flag.append(" ");
            proof {
                reveal_strlit(" ");
                assert(flag@ =~= seq!['-'] + Seq::new((i + 1) as nat, |j: int| ' '));
            }
            i += 1;
        }
        arguments.push(flag);
    }
    arguments
}

/// A directory that the daemon needs for its work.
#[derive(Clone, Copy, Debug, PartialEq, Eq, Structural)]
pub enum Directory {
    /// The base directory, which holds the state and the two others.
    Base,
    /// The daemon's own logs.
    Log,
    /// The output of the tasks.
    TaskLogs,
}

/// The name of a directory directly under the base; the base has none.
pub open spec fn name_under_base(d: Directory) -> Option<Seq<char>> {
    match d {
        Directory::Base => None,
        Directory::Log => Some("log"@),
        Directory::TaskLogs => Some("task_logs"@),
    }
}

/// Under which name a directory sits in the base directory.
pub fn directory_name(d: Directory) -> (name: Option<String>)
    ensures
        name is Some <==> name_under_base(d) is Some,
        name is Some ==> name->0@ == name_under_base(d)->0,
{
    match d {
        Directory::Base => None,
        Directory::Log => Some(String::from_str("log")),
        Directory::TaskLogs => Some(String::from_str("task_logs")),
    }
}

/// How a directory is called in a report of a failure to make it.
pub open spec fn label_of(d: Directory) -> Seq<char> {
    match d {
        Directory::Base => "main"@,
        Directory::Log => "log"@,
        Directory::TaskLogs => "task logs"@,
    }
}

/// The word for a directory in a report of a failure to make it.
pub fn directory_label(d: Directory) -> (label: String)
    ensures
        label@ == label_of(d),
{
    match d {
        Directory::Base => String::from_str("main"),
        Directory::Log => String::from_str("log"),
        Directory::TaskLogs => String::from_str("task logs"),
    }
}

/// The directories that have to be made, given which of them exist: each
/// missing one, and no other, the base first.
pub open spec fn missing(base: bool, log: bool, task_logs: bool) -> Seq<Directory> {
    (if base {
        Seq::<Directory>::empty()
    } else {
        seq![Directory::Base]
    }) + (if log {
        Seq::<Directory>::empty()
    } else {
        seq![Directory::Log]
    }) + (if task_logs {
        Seq::<Directory>::empty()
    } else {
        seq![Directory::TaskLogs]
    })
}

/// Decides which directories to make, from whether the base, the log
/// directory and the task log directory exist.
pub fn directories_to_make(base: bool, log: bool, task_logs: bool) -> (plan: Vec<Directory>)
    ensures
        plan@ == missing(base, log, task_logs),
{
    let mut plan: Vec<Directory> = Vec::new();
    if !base {
        plan.push(Directory::Base);
    }
    if !log {
        plan.push(Directory::Log);
    }
    if !task_logs {
        plan.push(Directory::TaskLogs);
    }
    proof {
        assert(plan@ =~= missing(base, log, task_logs));
    }
    plan
}

} // verus!
