use devpilot::detect::{
    adjust_command_for_package_manager, detect_project, detect_project_info, LockFiles,
    ManifestDir, ProjectFiles,
};
use devpilot::json::{document_has_key, parse_json_document, JsonDocument};

fn dir(manifest: Option<&str>) -> ManifestDir {
    ManifestDir {
        manifest: manifest.map(|s| s.to_string()),
        next_config_js: false,
        next_config_mjs: false,
        next_config_ts: false,
        nuxt_config_ts: false,
        vite_config_ts: false,
        vite_config_js: false,
        nest_cli_json: false,
    }
}

fn files(root: ManifestDir) -> ProjectFiles {
    ProjectFiles {
        root,
        frontend: dir(None),
        client: dir(None),
        manage_py: false,
        backend_manage_py: false,
        requirements_txt: false,
        pyproject_toml: false,
        backend_requirements_txt: false,
        go_mod: false,
    }
}

fn setup(f: &ProjectFiles) -> (String, Option<String>, String) {
    let d = detect_project("/work/shop", f);
    (d.name, d.project_type, d.start_command)
}

#[test]
fn next_dependency_makes_a_next_project() {
    let f = files(dir(Some(r#"{"dependencies":{"next":"14.0.0","react":"18"}}"#)));
    assert_eq!(setup(&f), ("shop".to_string(), Some("Next.js".to_string()), "npm run dev".to_string()));
}

#[test]
fn config_files_decide_the_kind() {
    let mut root = dir(Some("{}"));
    root.nuxt_config_ts = true;
    assert_eq!(setup(&files(root)).1, Some("Nuxt".to_string()));
    let mut root = dir(Some(r#"{"devDependencies":{"react":"18"}}"#));
    root.vite_config_js = true;
    assert_eq!(setup(&files(root)).1, Some("React + Vite".to_string()));
    let mut root = dir(Some(r#"{"dependencies":{"vue":"3"}}"#));
    root.vite_config_ts = true;
    assert_eq!(setup(&files(root)).1, Some("Vue + Vite".to_string()));
    let mut root = dir(Some("{}"));
    root.vite_config_ts = true;
    assert_eq!(setup(&files(root)).1, Some("Vite".to_string()));
}

#[test]
fn nest_starts_with_start_dev() {
    let mut root = dir(Some(r#"{"dependencies":{"express":"4"}}"#));
    root.nest_cli_json = true;
    let f = files(root);
    assert_eq!(setup(&f).1, Some("NestJS".to_string()));
    assert_eq!(setup(&f).2, "npm run start:dev");
    // the scanner checks Express before NestJS
    assert_eq!(detect_project_info("/work/shop", &f).project_type, Some("Express".to_string()));
}

#[test]
fn scripts_choose_the_node_command() {
    let f = files(dir(Some(r#"{"scripts":{"start":"node index.js"}}"#)));
    assert_eq!(setup(&f), ("shop".to_string(), Some("Node.js".to_string()), "npm start".to_string()));
    let f = files(dir(Some(r#"{"scripts":{"start":"a","dev":"b"}}"#)));
    assert_eq!(setup(&f).2, "npm run dev");
    let f = files(dir(Some(r#"{"name":"x"}"#)));
    assert_eq!(setup(&f).2, "npm run dev");
}

#[test]
fn frontend_manifest_is_used_with_cd() {
    let mut f = files(dir(Some("not json")));
    f.frontend = dir(Some(r#"{"dependencies":{"express":"4"}}"#));
    assert_eq!(setup(&f).1, Some("Express".to_string()));
    assert_eq!(setup(&f).2, "cd frontend && npm run dev");
    let mut f = files(dir(None));
    f.client = dir(Some(r#"{"scripts":{"start":"x"}}"#));
    assert_eq!(setup(&f).2, "cd client && npm start");
}

#[test]
fn python_and_go_projects() {
    let mut f = files(dir(None));
    f.backend_manage_py = true;
    assert_eq!(setup(&f).2, "cd backend && python manage.py runserver");
    f.manage_py = true;
    assert_eq!(setup(&f).2, "python manage.py runserver");
    let mut f = files(dir(None));
    f.pyproject_toml = true;
    assert_eq!(setup(&f), ("shop".to_string(), Some("Python".to_string()), "python main.py".to_string()));
    let mut f = files(dir(None));
    f.backend_requirements_txt = true;
    assert_eq!(setup(&f).2, "cd backend && python main.py");
    assert_eq!(detect_project_info("/work/shop", &f).project_type, Some("Python".to_string()));
    let mut f = files(dir(None));
    f.go_mod = true;
    assert_eq!(setup(&f).2, "go run .");
    let f = files(dir(None));
    assert_eq!(setup(&f), ("shop".to_string(), None, "npm run dev".to_string()));
}

#[test]
fn name_falls_back_to_unknown() {
    let d = detect_project("/", &files(dir(None)));
    assert_eq!(d.name, "unknown");
    let info = detect_project_info("/", &files(dir(None)));
    assert_eq!(info.name, None);
    assert_eq!(info.project_type, None);
}

#[test]
fn scanner_kinds_for_react_and_vue() {
    let f = files(dir(Some(r#"{"devDependencies":{"react":"18"}}"#)));
    assert_eq!(detect_project_info("/w/app1", &f).project_type, Some("React".to_string()));
    assert_eq!(detect_project_info("/w/app1", &f).name, Some("app1".to_string()));
    let f = files(dir(Some(r#"{"dependencies":{"vue":"3"}}"#)));
    assert_eq!(detect_project_info("/w/app1", &f).project_type, Some("Vue".to_string()));
    let f = files(dir(Some(r#"[1,2]"#)));
    assert_eq!(detect_project_info("/w/app1", &f).project_type, Some("Node.js".to_string()));
}

#[test]
fn package_manager_lock_files() {
    let none = LockFiles { pnpm_lock_yaml: false, yarn_lock: false, bun_lockb: false, bun_lock: false };
    assert_eq!(adjust_command_for_package_manager("cd frontend && npm run dev", &none), "cd frontend && npm run dev");
    let pnpm = LockFiles { pnpm_lock_yaml: true, ..none };
    assert_eq!(adjust_command_for_package_manager("npm run dev", &pnpm), "pnpm run dev");
    assert_eq!(adjust_command_for_package_manager("npm start", &pnpm), "pnpm start");
    let yarn = LockFiles { yarn_lock: true, ..none };
    assert_eq!(adjust_command_for_package_manager("npm run start:dev", &yarn), "yarn start:dev");
    assert_eq!(adjust_command_for_package_manager("npm start", &yarn), "yarn start");
    let bun = LockFiles { bun_lock: true, ..none };
    assert_eq!(adjust_command_for_package_manager("npm run dev", &bun), "bun run dev");
    let both = LockFiles { pnpm_lock_yaml: true, yarn_lock: true, ..none };
    assert_eq!(adjust_command_for_package_manager("npm run dev", &both), "pnpm run dev");
    assert_eq!(adjust_command_for_package_manager("python main.py", &yarn), "python main.py");
}

#[test]
fn json_documents_keep_member_keys() {
    let doc = parse_json_document(r#"{"dependencies":{"next":"1"},"scripts":"x"}"#).unwrap();
    assert!(document_has_key(&doc, "dependencies", "next"));
    assert!(!document_has_key(&doc, "dependencies", "react"));
    assert!(!document_has_key(&doc, "scripts", "dev"));
    assert!(!document_has_key(&doc, "devDependencies", "next"));
    assert_eq!(parse_json_document("[1]"), Some(JsonDocument::Other));
    assert_eq!(parse_json_document("{"), None);
}
