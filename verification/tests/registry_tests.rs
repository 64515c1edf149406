use devpilot::detect::{ManifestDir, ProjectFiles};
use devpilot::registry::{
    generate_id, id_from_millis, AddProjectError, ProjectRegistry, ProjectStatus,
};

fn dir(manifest: Option<&str>) -> ManifestDir {
    ManifestDir {
        manifest: manifest.map(|s| s.to_string()),
        next_config_js: false,
        next_config_mjs: false,
        next_config_ts: false,
        nuxt_config_ts: false,
        vite_config_ts: false,
        vite_config_js: false,
        nest_cli_json: false,
    }
}

fn node_files() -> ProjectFiles {
    ProjectFiles {
        root: dir(Some(r#"{"dependencies":{"next":"14"}}"#)),
        frontend: dir(None),
        client: dir(None),
        manage_py: false,
        backend_manage_py: false,
        requirements_txt: false,
        pyproject_toml: false,
        backend_requirements_txt: false,
        go_mod: false,
    }
}

#[test]
fn initial_registry_is_empty() {
    let reg = ProjectRegistry::initial();
    assert!(reg.projects.is_empty());
    assert_eq!(reg.next_port, 3000);
}

#[test]
fn add_project_registers_a_stopped_project() {
    let mut reg = ProjectRegistry::initial();
    let p = reg.add_project("/w/shop", None, true, &node_files()).unwrap();
    assert_eq!(p.name, "shop");
    assert_eq!(p.path, "/w/shop");
    assert_eq!(p.project_type, Some("Next.js".to_string()));
    assert_eq!(p.start_command, "npm run dev");
    assert_eq!(p.preferred_port, 3000);
    assert_eq!(p.status, ProjectStatus::Stopped);
    assert_eq!(p.pid, None);
    assert!(!p.id.is_empty());
    assert!(p.id.chars().all(|c| c.is_ascii_hexdigit() && !c.is_ascii_uppercase()));
    assert_eq!(reg.projects, vec![p]);
    assert_eq!(reg.next_port, 3001);
}

#[test]
fn add_project_uses_the_given_name() {
    let mut reg = ProjectRegistry::initial();
    let p = reg.add_project("/w/shop", Some("Shop".to_string()), true, &node_files()).unwrap();
    assert_eq!(p.name, "Shop");
}

#[test]
fn add_project_refuses_duplicates_and_missing_dirs() {
    let mut reg = ProjectRegistry::initial();
    reg.add_project("/w/shop", None, true, &node_files()).unwrap();
    let before = reg.clone();
    assert_eq!(reg.add_project("/w/shop", None, true, &node_files()), Err(AddProjectError::AlreadyAdded));
    assert_eq!(reg, before);
    assert_eq!(reg.add_project("/w/gone", None, false, &node_files()), Err(AddProjectError::DirectoryMissing));
    assert_eq!(reg, before);
    assert_eq!(AddProjectError::AlreadyAdded.message(), "该项目已添加");
    assert_eq!(AddProjectError::DirectoryMissing.message(), "目录不存在");
}

#[test]
fn ports_skip_those_already_preferred() {
    let mut reg = ProjectRegistry::initial();
    reg.add_project("/w/a", None, true, &node_files()).unwrap();
    reg.add_project("/w/b", None, true, &node_files()).unwrap();
    reg.next_port = 3000;
    let c = reg.add_project("/w/c", None, true, &node_files()).unwrap();
    assert_eq!(c.preferred_port, 3002);
    assert_eq!(reg.next_port, 3003);
    let ports: Vec<u16> = reg.projects.iter().map(|p| p.preferred_port).collect();
    assert_eq!(ports, vec![3000, 3001, 3002]);
}

#[test]
fn remove_then_find_finds_nothing() {
    let mut reg = ProjectRegistry::initial();
    let a = reg.add_project("/w/a", None, true, &node_files()).unwrap();
    reg.projects[0].id = "aa".to_string();
    let mut b = a.clone();
    b.id = "bb".to_string();
    b.path = "/w/b".to_string();
    reg.projects.push(b.clone());
    reg.remove_project("aa");
    assert_eq!(reg.projects, vec![b]);
    assert!(reg.find_mut("aa").is_none());
    reg.remove_project("zz");
    assert_eq!(reg.projects.len(), 1);
}

#[test]
fn find_mut_changes_the_project_in_place() {
    let mut reg = ProjectRegistry::initial();
    reg.add_project("/w/a", None, true, &node_files()).unwrap();
    let id = reg.projects[0].id.clone();
    reg.find_mut(&id).unwrap().set_running(99, 3000);
    assert_eq!(reg.projects[0].status, ProjectStatus::Running);
    assert_eq!(reg.projects[0].pid, Some(99));
}

#[test]
fn sync_marks_known_projects_running() {
    let mut reg = ProjectRegistry::initial();
    reg.add_project("/w/a", None, true, &node_files()).unwrap();
    reg.sync_discovered("/w/a", 42, 5173, true, &node_files());
    assert_eq!(reg.projects.len(), 1);
    assert_eq!(reg.projects[0].pid, Some(42));
    assert_eq!(reg.projects[0].actual_port, Some(5173));
    assert_eq!(reg.projects[0].status, ProjectStatus::Running);
}

#[test]
fn sync_registers_new_projects_running() {
    let mut reg = ProjectRegistry::initial();
    reg.sync_discovered("/w/new", 7, 3000, true, &node_files());
    assert_eq!(reg.projects.len(), 1);
    assert_eq!(reg.projects[0].path, "/w/new");
    assert_eq!(reg.projects[0].status, ProjectStatus::Running);
    assert_eq!(reg.projects[0].pid, Some(7));
    reg.sync_discovered("/w/gone", 8, 3001, false, &node_files());
    assert_eq!(reg.projects.len(), 1);
}

#[test]
fn refresh_stops_projects_whose_process_is_gone() {
    let mut reg = ProjectRegistry::initial();
    reg.sync_discovered("/w/a", 1, 3000, true, &node_files());
    reg.sync_discovered("/w/b", 2, 3001, true, &node_files());
    reg.add_project("/w/c", None, true, &node_files()).unwrap();
    assert_eq!(reg.running_pids(), vec![1, 2]);
    let changed = reg.refresh_statuses(&vec![2]);
    assert!(changed);
    assert_eq!(reg.projects[0].status, ProjectStatus::Stopped);
    assert_eq!(reg.projects[0].pid, None);
    assert_eq!(reg.projects[0].actual_port, None);
    assert_eq!(reg.projects[1].status, ProjectStatus::Running);
    assert_eq!(reg.projects[2].status, ProjectStatus::Stopped);
    let after = reg.clone();
    assert!(!reg.refresh_statuses(&vec![2]));
    assert_eq!(reg, after);
}

#[test]
fn running_without_pid_is_stopped_on_refresh() {
    let mut reg = ProjectRegistry::initial();
    reg.add_project("/w/a", None, true, &node_files()).unwrap();
    reg.projects[0].status = ProjectStatus::Running;
    assert!(reg.running_pids().is_empty());
    assert!(reg.refresh_statuses(&vec![]));
    assert_eq!(reg.projects[0].status, ProjectStatus::Stopped);
}

#[test]
fn identifiers_are_hex_milliseconds() {
    assert_eq!(id_from_millis(0x18c_5f3a_2b10), "18c5f3a2b10");
    let id = generate_id().unwrap();
    let ms = u128::from_str_radix(&id, 16).unwrap();
    assert!(ms > 1_600_000_000_000);
}

#[test]
fn syncing_the_same_server_twice_is_syncing_once() {
    let mut reg = ProjectRegistry::initial();
    reg.sync_discovered("/w/a", 5, 3000, true, &node_files());
    let once = reg.clone();
    reg.sync_discovered("/w/a", 5, 3000, true, &node_files());
    assert_eq!(reg, once);
}

#[test]
fn paths_and_ports_stay_distinct() {
    let mut reg = ProjectRegistry::initial();
    for path in ["/w/a", "/w/b", "/w/a", "/w/c"] {
        let _ = reg.add_project(path, None, true, &node_files());
        reg.sync_discovered(path, 1, 3000, true, &node_files());
    }
    let mut paths: Vec<&str> = reg.projects.iter().map(|p| p.path.as_str()).collect();
    let mut ports: Vec<u16> = reg.projects.iter().map(|p| p.preferred_port).collect();
    assert_eq!(paths.len(), 3);
    paths.dedup();
    ports.sort();
    ports.dedup();
    assert_eq!(paths.len(), 3);
    assert_eq!(ports.len(), 3);
}

#[test]
fn sync_with_id_registers_a_new_directory_running() {
    let mut reg = ProjectRegistry::initial();
    reg.sync_discovered_with_id("/w/new", 9, 5173, true, &node_files(), "abc".to_string());
    assert_eq!(reg.projects.len(), 1);
    let p = &reg.projects[0];
    assert_eq!(p.id, "abc");
    assert_eq!(p.name, "new");
    assert_eq!(p.preferred_port, 3000);
    assert_eq!(p.pid, Some(9));
    assert_eq!(p.actual_port, Some(5173));
    assert_eq!(p.status, ProjectStatus::Running);
    assert_eq!(reg.next_port, 3001);
    let once = reg.clone();
    reg.sync_discovered_with_id("/w/new", 9, 5173, true, &node_files(), "zzz".to_string());
    assert_eq!(reg, once);
    reg.sync_discovered_with_id("/w/missing", 1, 3000, false, &node_files(), "q".to_string());
    assert_eq!(reg, once);
}
