use zebras_launcher::errors::LauncherError;
use zebras_launcher::git::{GitManager, GitStatus};
use zebras_launcher::models::{ProjectInfo, ZebrasVersion};
use zebras_launcher::user_path::{candidate_program_paths, merge_path_entries, split_colon};
use zebras_launcher::workspace::{PortStrategy, Workspace, WorkspaceList, WorkspaceService};

fn project(name: &str, port: u16) -> ProjectInfo {
    ProjectInfo {
        id: name.to_string(),
        path: format!("/{}", name),
        version: ZebrasVersion::V3,
        platform: "web".to_string(),
        type_: "app".to_string(),
        name: name.to_string(),
        domain: None,
        port,
        framework: None,
        is_valid: true,
        last_scanned: 0,
        error: None,
        debug: None,
        enabled: None,
    }
}

#[test]
fn new_workspace_starts_empty_with_default_settings() {
    let w = Workspace::new("mine".to_string(), "/src".to_string());
    assert_eq!(w.name, "mine");
    assert_eq!(w.root_path, "/src");
    assert!(w.folders.is_empty());
    assert!(w.projects.is_empty());
    assert!(!w.settings.auto_start_all);
    assert_eq!(w.settings.port_strategy, PortStrategy::Sequential);
    assert_eq!(w.settings.port_range_start, 8000);
    assert_eq!(w.settings.port_range_end, 9000);
    assert_eq!(w.id.len(), 36);
}

#[test]
fn folders_are_added_once_and_removed_completely() {
    let mut w = Workspace::new("mine".to_string(), "/src".to_string());
    w.add_folder("/src/a".to_string());
    w.add_folder("/src/b".to_string());
    w.add_folder("/src/a".to_string());
    assert_eq!(w.folders, vec!["/src/a".to_string(), "/src/b".to_string()]);
    w.remove_folder("/src/a");
    assert_eq!(w.folders, vec!["/src/b".to_string()]);
}

#[test]
fn enabling_flags_the_named_project_only() {
    let mut w = Workspace::new("mine".to_string(), "/src".to_string());
    w.projects = vec![project("a", 8000), project("b", 8001)];
    w.set_project_enabled("b", false).unwrap();
    assert_eq!(w.projects[0].enabled, None);
    assert_eq!(w.projects[1].enabled, Some(false));
    assert_eq!(
        w.set_project_enabled("missing", true).unwrap_err(),
        LauncherError::NotFound
    );
}

#[test]
fn start_all_skips_invalid_and_disabled_projects() {
    let mut w = Workspace::new("mine".to_string(), "/src".to_string());
    let mut broken = project("broken", 8002);
    broken.is_valid = false;
    let mut off = project("off", 8003);
    off.enabled = Some(false);
    let mut on = project("on", 8004);
    on.enabled = Some(true);
    w.projects = vec![project("plain", 8001), broken, off, on];

    let to_start = w.projects_to_start();
    let names: Vec<&str> = to_start.iter().map(|p| p.name.as_str()).collect();
    assert_eq!(names, vec!["plain", "on"]);
}

#[test]
fn registry_tracks_workspaces_by_id() {
    let mut list = WorkspaceList::new();
    let w = Workspace::new("mine".to_string(), "/src".to_string());
    list.add_workspace(&w, "/cfg/one.json".to_string());
    list.add_workspace(&w, "/cfg/two.json".to_string());
    assert_eq!(list.workspaces.len(), 1);
    assert_eq!(list.workspaces[0].name, "mine");
    assert_eq!(list.workspaces[0].config_path, "/cfg/one.json");
    assert!(list.workspaces[0].last_opened.is_some());

    assert_eq!(
        list.id_for_config_path("/cfg/one.json"),
        Some(w.id.clone())
    );
    assert_eq!(list.id_for_config_path("/cfg/other.json"), None);

    list.update_last_opened(&w.id);
    assert!(list.workspaces[0].last_opened.is_some());

    list.remove_workspace(&w.id);
    assert!(list.workspaces.is_empty());
}

#[test]
fn config_files_live_under_the_launcher_directory() {
    assert_eq!(
        WorkspaceService::get_config_path("/home/me", "abc"),
        "/home/me/.zebras-launcher/workspaces/abc.json"
    );
    assert_eq!(
        WorkspaceService::workspaces_dir("/home/me"),
        "/home/me/.zebras-launcher/workspaces"
    );
    assert_eq!(
        WorkspaceService::list_path("/home/me"),
        "/home/me/.zebras-launcher/workspaces.json"
    );
}

#[test]
fn git_output_check_trims_and_falls_back_to_the_code() {
    assert_eq!(
        GitManager::check_output(0, " main \n", ""),
        Ok("main".to_string())
    );
    assert_eq!(
        GitManager::check_output(128, "", " fatal: not a repo \n"),
        Err("fatal: not a repo".to_string())
    );
    assert_eq!(
        GitManager::check_output(128, "ignored", "  "),
        Err("git failed with exit code 128".to_string())
    );
}

#[test]
fn pull_is_gated_on_a_clean_tree() {
    let clean = GitStatus {
        branch: Some("main".to_string()),
        has_remote: true,
        uncommitted_count: 0,
        ahead_count: 0,
        behind_count: 0,
    };
    let dirty = GitStatus { uncommitted_count: 3, ..clean.clone() };
    assert!(GitManager::pull_allowed(&clean));
    assert!(!GitManager::pull_allowed(&dirty));

    let ok = GitManager::build_pull_result(0, "", clean.clone());
    assert!(ok.success);
    assert_eq!(ok.message, "pull succeeded");
    let failed = GitManager::build_pull_result(1, " conflict \n", clean.clone());
    assert!(!failed.success);
    assert_eq!(failed.message, "conflict");
    let silent = GitManager::build_pull_result(9, "", clean);
    assert_eq!(silent.message, "pull failed with exit code 9");
}

#[test]
fn path_entries_split_merge_and_join_into_candidates() {
    let parts = split_colon("/usr/bin::/opt/bin");
    assert_eq!(
        parts,
        vec!["/usr/bin".to_string(), "".to_string(), "/opt/bin".to_string()]
    );
    assert_eq!(split_colon(""), vec!["".to_string()]);

    let merged = merge_path_entries(
        vec!["/opt/homebrew/bin".to_string(), "/usr/local/bin".to_string()],
        &vec![
            "/usr/bin".to_string(),
            "".to_string(),
            "/usr/local/bin".to_string(),
            "/usr/bin".to_string(),
        ],
    );
    assert_eq!(
        merged,
        vec![
            "/opt/homebrew/bin".to_string(),
            "/usr/local/bin".to_string(),
            "/usr/bin".to_string(),
        ]
    );

    let candidates = candidate_program_paths(&merged, "npm");
    assert_eq!(
        candidates,
        vec![
            "/opt/homebrew/bin/npm".to_string(),
            "/usr/local/bin/npm".to_string(),
            "/usr/bin/npm".to_string(),
        ]
    );
}

#[test]
fn creation_and_modification_start_together() {
    let w = Workspace::new("mine".to_string(), "/src".to_string());
    assert_eq!(w.created_at, w.last_modified);
    let _ = GitManager::new();
}

#[test]
fn splitting_without_a_separator_keeps_the_whole_string() {
    assert_eq!(split_colon("abc"), vec!["abc".to_string()]);
    assert_eq!(split_colon(":x"), vec!["".to_string(), "x".to_string()]);
    assert_eq!(split_colon("x:"), vec!["x".to_string(), "".to_string()]);
}
