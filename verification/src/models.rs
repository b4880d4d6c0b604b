//! The data records the launcher tracks: processes, terminal sessions,
//! projects, port changes and log events.

use vstd::prelude::*;
use vstd::string::StringExecFns;
use crate::config::ConfigMap;
use crate::shims;

verus! {

/// Informational status of a supervised process. Only presence in the
/// supervisor's map is enforced; see `ProcessManager`.
#[derive(Debug, Clone, Copy, PartialEq, Eq, Structural)]
pub enum ProcessStatus {
    Starting,
    Running,
    Stopping,
    Stopped,
    Crashed,
    Error,
}

/// One tracked dev-server process. No field changes after creation; the
/// whole record is removed when the process is stopped.
#[derive(Debug, Clone, PartialEq, Eq)]
pub struct ProcessInfo {
    pub process_id: String,
    pub project_id: String,
    pub project_name: String,
    pub status: ProcessStatus,
    /// Milliseconds since the Unix epoch.
    pub started_at: i64,
    pub pid: Option<u32>,
}

/// Severity of a stored log entry.
#[derive(Debug, Clone, Copy, PartialEq, Eq, Structural)]
pub enum LogLevel {
    Info,
    Warning,
    Error,
    Debug,
}

/// One stored line of process output.
#[derive(Debug, Clone, PartialEq, Eq)]
pub struct LogEntry {
    pub process_id: String,
    /// Milliseconds since the Unix epoch.
    pub timestamp: i64,
    pub level: LogLevel,
    pub message: String,
    pub stream: String,
}

/// One log event published to the UI event sink for a supervised process.
#[derive(Debug, Clone, PartialEq, Eq)]
pub struct LogMessage {
    pub process_id: String,
    pub session_id: Option<String>,
    pub project_id: String,
    pub project_name: String,
    pub message: String,
    /// "stdout" or "stderr".
    pub stream: String,
}

/// One log event published to the UI event sink for a terminal session.
#[derive(Debug, Clone, PartialEq, Eq)]
pub struct TerminalLogMessage {
    pub session_id: String,
    pub project_id: String,
    pub message: String,
    /// "stdout" or "stderr".
    pub stream: String,
}

/// The state machine of a terminal session:
/// `Idle -> Running -> {Completed, Error}`, where any state but `Running`
/// permits a new command.
#[derive(Debug, Clone, Copy, PartialEq, Eq, Structural)]
pub enum TerminalStatus {
    Idle,
    Running,
    Completed,
    Error,
}

/// One interactive session scoped to a project. `pid` is set while a
/// command's process is alive and cleared on completion or kill.
#[derive(Debug, Clone, PartialEq, Eq)]
pub struct TerminalSession {
    pub session_id: String,
    pub project_id: String,
    pub command: Option<String>,
    pub status: TerminalStatus,
    pub pid: Option<u32>,
}

/// Which configuration dialect a project uses.
#[derive(Debug, Clone, Copy, PartialEq, Eq, Structural)]
pub enum ZebrasVersion {
    V2,
    V3,
}

/// An immutable record of one port reassignment, produced by the port
/// allocator and consumed by the config-writer collaborator.
#[derive(Debug, Clone, PartialEq, Eq)]
pub struct PortChange {
    pub project_name: String,
    pub old_port: u16,
    pub new_port: u16,
}

/// One discovered project with its declared start command and port.
#[derive(Debug, Clone, PartialEq, Eq)]
pub struct ProjectInfo {
    pub id: String,
    pub path: String,
    pub version: ZebrasVersion,
    pub platform: String,
    pub type_: String,
    pub name: String,
    pub domain: Option<String>,
    pub port: u16,
    pub framework: Option<String>,
    pub is_valid: bool,
    /// Milliseconds since the Unix epoch.
    pub last_scanned: i64,
    pub error: Option<String>,
    pub debug: Option<ConfigMap>,
    /// Whether "start all" launches this project; `None` means enabled.
    pub enabled: Option<bool>,
}

/// Two project records that agree on every field; the debug maps are
/// compared by their contents.
pub open spec fn same_project(a: ProjectInfo, b: ProjectInfo) -> bool {
    &&& a.id == b.id
    &&& a.path == b.path
    &&& a.version == b.version
    &&& a.platform == b.platform
    &&& a.type_ == b.type_
    &&& a.name == b.name
    &&& a.domain == b.domain
    &&& a.port == b.port
    &&& a.framework == b.framework
    &&& a.is_valid == b.is_valid
    &&& a.last_scanned == b.last_scanned
    &&& a.error == b.error
    &&& a.enabled == b.enabled
    &&& match (a.debug, b.debug) {
        (None, None) => true,
        (Some(x), Some(y)) => x.entries_seq() == y.entries_seq() && x.as_map() == y.as_map()
            && x.wf() == y.wf(),
        _ => false,
    }
}

/// A field-for-field copy; the debug map is copied entry by entry.
pub fn duplicate_project(p: &ProjectInfo) -> (r: ProjectInfo)
    ensures
        same_project(r, *p),
{
    let domain: Option<String> = match &p.domain {
        Some(d) => Some(d.clone()),
        None => None,
    };
    let framework: Option<String> = match &p.framework {
        Some(f) => Some(f.clone()),
        None => None,
    };
    let error: Option<String> = match &p.error {
        Some(e) => Some(e.clone()),
        None => None,
    };
    let debug: Option<ConfigMap> = match &p.debug {
        Some(m) => Some(m.duplicate()),
        None => None,
    };
    ProjectInfo {
        id: p.id.clone(),
        path: p.path.clone(),
        version: p.version,
        platform: p.platform.clone(),
        type_: p.type_.clone(),
        name: p.name.clone(),
        domain,
        port: p.port,
        framework,
        is_valid: p.is_valid,
        last_scanned: p.last_scanned,
        error,
        debug,
        enabled: p.enabled,
    }
}

impl ProjectInfo {
    /// A fresh project record with the default declared values.
    pub fn new(path: String, name: String) -> (p: ProjectInfo)
        ensures
            p.id@.len() == 36,
            p.path@ == path@,
            p.name@ == name@,
            p.version == ZebrasVersion::V3,
            p.platform@ == "web"@,
            p.type_@ == "app"@,
            p.domain is None,
            p.port == 8000,
            p.framework is None,
            p.is_valid,
            p.error is None,
            p.debug is None,
            p.enabled == Some(true),
    {
        ProjectInfo {
            id: shims::fresh_id(),
            path,
            version: ZebrasVersion::V3,
            platform: String::from_str("web"),
            type_: String::from_str("app"),
            name,
            domain: None,
            port: 8000,
            framework: None,
            is_valid: true,
            last_scanned: shims::now_millis(),
            error: None,
            debug: None,
            enabled: Some(true),
        }
    }
}

} // verus!
