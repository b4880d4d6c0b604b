use zebras_launcher::errors::LauncherError;
use zebras_launcher::models::ProcessStatus;
use zebras_launcher::process::ProcessManager;

#[test]
fn registered_process_is_tracked_until_stopped() {
    let mut mgr = ProcessManager::new();
    let rec = mgr.register("p1".to_string(), "web".to_string(), Some(1234));
    assert_eq!(rec.project_id, "p1");
    assert_eq!(rec.project_name, "web");
    assert_eq!(rec.status, ProcessStatus::Running);
    assert_eq!(rec.pid, Some(1234));
    assert_eq!(rec.process_id.len(), 36);

    assert!(mgr.is_running(&rec.process_id));
    let ids = mgr.get_all_processes();
    assert_eq!(ids, vec![rec.process_id.clone()]);

    let removed = mgr.stop_project(&rec.process_id).unwrap();
    assert_eq!(removed.process_id, rec.process_id);
    assert_eq!(removed.pid, Some(1234));

    // the record is gone: listings exclude it and a second stop fails
    assert!(!mgr.is_running(&rec.process_id));
    assert!(mgr.get_all_processes().is_empty());
    assert_eq!(
        mgr.stop_project(&rec.process_id).unwrap_err(),
        LauncherError::NotFound
    );
}

#[test]
fn fresh_process_ids_differ() {
    let mut mgr = ProcessManager::new();
    let a = mgr.register("p".to_string(), "web".to_string(), None);
    let b = mgr.register("p".to_string(), "web".to_string(), None);
    assert_ne!(a.process_id, b.process_id);
    assert_eq!(mgr.get_all_processes().len(), 2);
}

#[test]
fn stop_all_drains_every_record() {
    let mut mgr = ProcessManager::new();
    let a = mgr.register("p1".to_string(), "one".to_string(), Some(1));
    let b = mgr.register("p2".to_string(), "two".to_string(), Some(2));
    let drained = mgr.stop_all();
    assert_eq!(drained.len(), 2);
    assert_eq!(drained[0].process_id, a.process_id);
    assert_eq!(drained[1].process_id, b.process_id);
    assert!(mgr.get_all_processes().is_empty());
}

#[test]
fn task_kinds_map_to_their_invocations() {
    let (prog, args) = ProcessManager::task_command("npm_install").unwrap();
    assert_eq!(prog, "npm");
    assert_eq!(args, vec!["install".to_string()]);

    let (prog, args) = ProcessManager::task_command("pnpm_install").unwrap();
    assert_eq!(prog, "pnpm");
    assert_eq!(args, vec!["install".to_string()]);

    let (prog, args) = ProcessManager::task_command("npm_deploy").unwrap();
    assert_eq!(prog, "npm");
    assert_eq!(args, vec!["run".to_string(), "deploy".to_string()]);

    assert_eq!(
        ProcessManager::task_command("make_coffee").unwrap_err(),
        LauncherError::UnsupportedTask
    );
}

#[test]
fn task_outcome_reports_the_exit_code() {
    assert!(ProcessManager::task_outcome(true, Some(0)).is_ok());
    assert_eq!(
        ProcessManager::task_outcome(false, Some(2)).unwrap_err(),
        LauncherError::TaskFailed(2)
    );
    assert_eq!(
        ProcessManager::task_outcome(false, None).unwrap_err(),
        LauncherError::TaskFailed(-1)
    );
}

#[test]
fn running_records_lists_full_copies() {
    let mut mgr = ProcessManager::new();
    let a = mgr.register("p1".to_string(), "one".to_string(), Some(41));
    let b = mgr.register("p2".to_string(), "two".to_string(), None);
    let records = mgr.running_records();
    assert_eq!(records.len(), 2);
    assert_eq!(records[0], a);
    assert_eq!(records[1], b);
}
