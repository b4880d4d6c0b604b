use zebras_launcher::errors::LauncherError;
use zebras_launcher::models::{ProjectInfo, ZebrasVersion};
use zebras_launcher::ports::{collect_global_used_ports, PortManager};
use zebras_launcher::workspace::Workspace;

fn project(name: &str, port: u16) -> ProjectInfo {
    ProjectInfo {
        id: name.to_string(),
        path: format!("/{}", name),
        version: ZebrasVersion::V3,
        platform: "web".to_string(),
        type_: "app".to_string(),
        name: name.to_string(),
        domain: None,
        port,
        framework: None,
        is_valid: true,
        last_scanned: 0,
        error: None,
        debug: None,
        enabled: None,
    }
}

#[test]
fn test_port_manager_sequential() {
    let mut manager = PortManager::new(8000, 9000);

    let mut projects = vec![ProjectInfo {
        id: "1".to_string(),
        path: "/test1".to_string(),
        version: ZebrasVersion::V3,
        platform: "web".to_string(),
        type_: "app".to_string(),
        name: "test1".to_string(),
        domain: None,
        port: 59000,
        framework: None,
        is_valid: true,
        last_scanned: 0,
        error: None,
        debug: None,
        enabled: None,
    }];

    let global_ports: Vec<u16> = Vec::new();
    let unbindable: Vec<u16> = Vec::new();
    let result = manager.resolve_conflicts(&mut projects, &global_ports, &unbindable);
    assert!(result.is_ok());
}

#[test]
fn free_requested_port_is_kept_without_a_change() {
    let mut manager = PortManager::new(8000, 9000);
    let mut projects = vec![project("web", 8005)];
    let changes = manager
        .resolve_conflicts(&mut projects, &vec![8001], &vec![8002])
        .unwrap();
    assert_eq!(projects[0].port, 8005);
    assert!(changes.is_empty());
}

#[test]
fn conflicting_port_moves_to_smallest_free_port() {
    // the scenario: range [8000, 9000], 8001 reserved globally, the
    // requested 8000 already bound by a foreign process
    let mut manager = PortManager::new(8000, 9000);
    let mut projects = vec![project("web", 8000)];
    let changes = manager
        .resolve_conflicts(&mut projects, &vec![8001], &vec![8000])
        .unwrap();
    assert_eq!(projects[0].port, 8002);
    assert_eq!(changes.len(), 1);
    assert_eq!(changes[0].project_name, "web");
    assert_eq!(changes[0].old_port, 8000);
    assert_eq!(changes[0].new_port, 8002);
}

#[test]
fn same_request_earlier_project_wins() {
    let mut manager = PortManager::new(8000, 9000);
    let mut projects = vec![project("first", 8000), project("second", 8000)];
    let changes = manager
        .resolve_conflicts(&mut projects, &Vec::new(), &Vec::new())
        .unwrap();
    assert_eq!(projects[0].port, 8000);
    assert_eq!(projects[1].port, 8001);
    assert_eq!(changes.len(), 1);
    assert_eq!(changes[0].project_name, "second");
    assert_eq!(changes[0].old_port, 8000);
    assert_eq!(changes[0].new_port, 8001);
}

#[test]
fn exhausted_range_fails_naming_the_project() {
    let mut manager = PortManager::new(8000, 8001);
    let mut projects = vec![project("big", 8001)];
    let err = manager
        .resolve_conflicts(&mut projects, &vec![8001], &Vec::new())
        .unwrap_err();
    assert_eq!(err, LauncherError::PortExhausted("big".to_string()));
    // the failing project's port is untouched
    assert_eq!(projects[0].port, 8001);
}

#[test]
fn failure_keeps_earlier_reassignments() {
    // 8000 is unbindable and the range leaves room for only one project
    let mut manager = PortManager::new(8000, 8001);
    let mut projects = vec![project("a", 8000), project("b", 8000)];
    let err = manager
        .resolve_conflicts(&mut projects, &Vec::new(), &vec![8000])
        .unwrap_err();
    assert_eq!(err, LauncherError::PortExhausted("b".to_string()));
    assert_eq!(projects[0].port, 8001);
    assert_eq!(projects[1].port, 8000);

    let mut manager = PortManager::new(8000, 8002);
    let mut projects = vec![project("a", 8000), project("b", 8000)];
    let err = manager
        .resolve_conflicts(&mut projects, &Vec::new(), &vec![8000, 8002])
        .unwrap_err();
    // "a" was moved to 8001 before "b" ran out of room
    assert_eq!(err, LauncherError::PortExhausted("b".to_string()));
    assert_eq!(projects[0].port, 8001);
    assert_eq!(projects[1].port, 8000);
}

#[test]
fn global_ports_exclude_the_current_workspace() {
    let mut current = Workspace::new("current".to_string(), "/cur".to_string());
    current.projects = vec![project("cur-app", 8100)];
    let current_id = current.id.clone();

    let mut other = Workspace::new("other".to_string(), "/other".to_string());
    let mut invalid = project("broken", 8200);
    invalid.is_valid = false;
    other.projects = vec![project("other-app", 8300), invalid, project("twin", 8300)];

    let used = collect_global_used_ports(&vec![current, other], &current_id);
    assert!(used.contains(&8300));
    assert!(!used.contains(&8100));
    assert!(!used.contains(&8200));
    // each reserved port is listed once
    assert_eq!(used.iter().filter(|p| **p == 8300).count(), 1);
}
