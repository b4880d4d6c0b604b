//! The error taxonomy shared by the supervision, terminal and port modules.

use vstd::prelude::*;
use vstd::string::StringExecFns;
use crate::text;

verus! {

/// Everything a launcher operation can fail with. Kill failures are
/// best-effort and frequently swallowed by callers; structural failures
/// (bad input, exhausted range, session cap) abort only the current call.
#[derive(Debug, Clone, PartialEq, Eq)]
pub enum LauncherError {
    /// Unknown process id or session id.
    NotFound,
    /// The terminal session is already running a command.
    AlreadyRunning,
    /// The submitted command was blank.
    EmptyCommand,
    /// The project already has the maximum number of open sessions.
    TooManySessions,
    /// The terminal session has no live process to kill.
    NoActiveProcess,
    /// The OS could not create the process; carries the OS message.
    SpawnFailure(String),
    /// A process-tree kill failed; carries the OS message.
    KillFailure(String),
    /// No free port in range; carries the offending project's name.
    PortExhausted(String),
    /// Persisting a resolved port failed; carries the writer's message.
    ConfigWriteFailure(String),
    /// A one-shot task kind that the supervisor does not know.
    UnsupportedTask,
    /// A one-shot task exited with this non-zero code.
    TaskFailed(i32),
}

impl LauncherError {
    /// A short human-readable message, in place of a `Display` impl.
    pub fn message(&self) -> (r: String)
        ensures
            r@.len() > 0,
            self matches LauncherError::NotFound ==> r@ == "process or session not found"@,
            self matches LauncherError::AlreadyRunning ==> r@
                == "the session is already running a command"@,
            self matches LauncherError::EmptyCommand ==> r@ == "the command must not be empty"@,
            self matches LauncherError::TooManySessions ==> r@
                == "a project may have at most 3 open terminals"@,
            self matches LauncherError::NoActiveProcess ==> r@
                == "the session has no running process"@,
            self matches LauncherError::SpawnFailure(m) ==> r@ == "failed to spawn the process: "@
                + m@,
            self matches LauncherError::KillFailure(m) ==> r@
                == "failed to kill the process tree: "@ + m@,
            self matches LauncherError::PortExhausted(n) ==> r@
                == "no free port could be found for project "@ + n@,
            self matches LauncherError::ConfigWriteFailure(m) ==> r@
                == "failed to write the port to the project config: "@ + m@,
            self matches LauncherError::UnsupportedTask ==> r@ == "unsupported task kind"@,
            self matches LauncherError::TaskFailed(c) ==> r@ == "the task exited with code "@
                + text::dec_signed(c as int),
    {
        proof {
            reveal_strlit("process or session not found");
            reveal_strlit("the session is already running a command");
            reveal_strlit("the command must not be empty");
            reveal_strlit("a project may have at most 3 open terminals");
            reveal_strlit("the session has no running process");
            reveal_strlit("failed to spawn the process: ");
            reveal_strlit("failed to kill the process tree: ");
            reveal_strlit("no free port could be found for project ");
            reveal_strlit("failed to write the port to the project config: ");
            reveal_strlit("unsupported task kind");
            reveal_strlit("the task exited with code ");
        }
        match self {
            LauncherError::NotFound => String::from_str("process or session not found"),
            LauncherError::AlreadyRunning => {
                String::from_str("the session is already running a command")
            },
            LauncherError::EmptyCommand => String::from_str("the command must not be empty"),
            LauncherError::TooManySessions => {
                String::from_str("a project may have at most 3 open terminals")
            },
            LauncherError::NoActiveProcess => {
                String::from_str("the session has no running process")
            },
            LauncherError::SpawnFailure(m) => {
                let mut r = String::from_str("failed to spawn the process: ");
                r.append(m.as_str());
                r
            },
            LauncherError::KillFailure(m) => {
                let mut r = String::from_str("failed to kill the process tree: ");
                r.append(m.as_str());
                r
            },
            LauncherError::PortExhausted(n) => {
                let mut r = String::from_str("no free port could be found for project ");
                r.append(n.as_str());
                r
            },
            LauncherError::ConfigWriteFailure(m) => {
                let mut r = String::from_str("failed to write the port to the project config: ");
                r.append(m.as_str());
                r
            },
            LauncherError::UnsupportedTask => String::from_str("unsupported task kind"),
            LauncherError::TaskFailed(c) => {
                let mut r = String::from_str("the task exited with code ");
                let digits = text::i64_decimal(*c as i64);
                r.append(digits.as_str());
                r
            },
        }
    }
}

} // verus!
