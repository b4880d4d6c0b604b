use zebras_launcher::errors::LauncherError;
use zebras_launcher::models::TerminalStatus;
use zebras_launcher::terminal::{exit_log_line, TerminalManager};

#[test]
fn fourth_session_of_a_project_is_refused() {
    let mut mgr = TerminalManager::new();
    let a = mgr.create_session("proj".to_string()).unwrap();
    let b = mgr.create_session("proj".to_string()).unwrap();
    let c = mgr.create_session("proj".to_string()).unwrap();
    assert_ne!(a.session_id, b.session_id);
    assert_ne!(b.session_id, c.session_id);
    let err = mgr.create_session("proj".to_string()).unwrap_err();
    assert_eq!(err, LauncherError::TooManySessions);
    // the cap is per project: another project still gets a session
    assert!(mgr.create_session("elsewhere".to_string()).is_ok());
    assert_eq!(mgr.get_sessions("proj".to_string()).len(), 3);
}

#[test]
fn new_session_starts_idle() {
    let mut mgr = TerminalManager::new();
    let s = mgr.create_session("proj".to_string()).unwrap();
    assert_eq!(s.status, TerminalStatus::Idle);
    assert_eq!(s.project_id, "proj");
    assert!(s.command.is_none());
    assert!(s.pid.is_none());
    assert_eq!(s.session_id.len(), 36);
}

#[test]
fn running_session_refuses_a_second_command_until_it_finishes() {
    let mut mgr = TerminalManager::new();
    let s = mgr.create_session("proj".to_string()).unwrap();
    let project = mgr.begin_command(&s.session_id, "npm test").unwrap();
    assert_eq!(project, "proj");

    let err = mgr.begin_command(&s.session_id, "npm run lint").unwrap_err();
    assert_eq!(err, LauncherError::AlreadyRunning);

    mgr.finish_command(&s.session_id, true);
    let sessions = mgr.get_sessions("proj".to_string());
    assert_eq!(sessions.len(), 1);
    assert_eq!(sessions[0].status, TerminalStatus::Completed);
    assert!(sessions[0].pid.is_none());

    // a finished session accepts a new command
    assert!(mgr.begin_command(&s.session_id, "npm run lint").is_ok());
}

#[test]
fn failed_command_marks_the_session_error() {
    let mut mgr = TerminalManager::new();
    let s = mgr.create_session("proj".to_string()).unwrap();
    mgr.begin_command(&s.session_id, "false").unwrap();
    mgr.set_session_pid(&s.session_id, Some(4242));
    let sessions = mgr.get_sessions("proj".to_string());
    assert_eq!(sessions[0].pid, Some(4242));
    mgr.finish_command(&s.session_id, false);
    let sessions = mgr.get_sessions("proj".to_string());
    assert_eq!(sessions[0].status, TerminalStatus::Error);
    assert!(sessions[0].pid.is_none());
}

#[test]
fn blank_command_is_refused() {
    let mut mgr = TerminalManager::new();
    let s = mgr.create_session("proj".to_string()).unwrap();
    let err = mgr.begin_command(&s.session_id, "  \t\n").unwrap_err();
    assert_eq!(err, LauncherError::EmptyCommand);
}

#[test]
fn unknown_session_is_not_found() {
    let mut mgr = TerminalManager::new();
    assert_eq!(
        mgr.begin_command("missing", "ls").unwrap_err(),
        LauncherError::NotFound
    );
    assert_eq!(mgr.kill_session("missing").unwrap_err(), LauncherError::NotFound);
    assert_eq!(mgr.close_session("missing").unwrap_err(), LauncherError::NotFound);
}

#[test]
fn kill_session_needs_a_live_process() {
    let mut mgr = TerminalManager::new();
    let s = mgr.create_session("proj".to_string()).unwrap();
    assert_eq!(
        mgr.kill_session(&s.session_id).unwrap_err(),
        LauncherError::NoActiveProcess
    );

    mgr.begin_command(&s.session_id, "sleep 5").unwrap();
    mgr.set_session_pid(&s.session_id, Some(77));
    assert_eq!(mgr.kill_session(&s.session_id).unwrap(), 77);
    let sessions = mgr.get_sessions("proj".to_string());
    assert_eq!(sessions[0].status, TerminalStatus::Error);
    assert!(sessions[0].pid.is_none());
}

#[test]
fn close_session_forgets_the_session() {
    let mut mgr = TerminalManager::new();
    let s = mgr.create_session("proj".to_string()).unwrap();
    mgr.begin_command(&s.session_id, "sleep 5").unwrap();
    mgr.set_session_pid(&s.session_id, Some(99));
    assert_eq!(mgr.close_session(&s.session_id).unwrap(), Some(99));
    assert!(mgr.get_sessions("proj".to_string()).is_empty());
    assert_eq!(mgr.close_session(&s.session_id).unwrap_err(), LauncherError::NotFound);
}

#[test]
fn stop_all_returns_live_pids_and_clears_everything() {
    let mut mgr = TerminalManager::new();
    let a = mgr.create_session("p1".to_string()).unwrap();
    let b = mgr.create_session("p2".to_string()).unwrap();
    let _idle = mgr.create_session("p3".to_string()).unwrap();
    mgr.begin_command(&a.session_id, "sleep 5").unwrap();
    mgr.set_session_pid(&a.session_id, Some(11));
    mgr.begin_command(&b.session_id, "sleep 5").unwrap();
    mgr.set_session_pid(&b.session_id, Some(22));

    let mut pids = mgr.stop_all();
    pids.sort();
    assert_eq!(pids, vec![11, 22]);
    assert!(mgr.get_sessions("p1".to_string()).is_empty());
    assert!(mgr.get_sessions("p2".to_string()).is_empty());
    assert!(mgr.get_sessions("p3".to_string()).is_empty());
}

#[test]
fn exit_line_carries_the_code_when_known() {
    assert_eq!(exit_log_line(Some(0)), "[exit] code=0");
    assert_eq!(exit_log_line(Some(137)), "[exit] code=137");
    assert_eq!(exit_log_line(Some(-1)), "[exit] code=-1");
    assert_eq!(exit_log_line(None), "[exit]");
}
