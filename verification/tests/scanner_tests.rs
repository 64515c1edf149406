use devpilot::detect::ProjectInfo;
use devpilot::scanner::{
    command_line_from_text, parse_cwd_text, parse_lsof_text, role_from_lowered, root_from_parts,
    build_dev_servers, describe_listener, detect_service_role, full_command_from_ps,
    group_servers, grouping_fits_servers, infer_project_dir_from_cmd, is_dev_server_process,
    normalize_project_root, parse_cwd_listing, parse_lsof_listeners, pick_primary_server,
    resolve_project_dir, sort_by_port, DevServer, ListenEntry, RawServer, RelatedPort,
};

fn raw(pid: u32, port: u16, cmd: &str, full: &str, dir: Option<&str>) -> RawServer {
    RawServer {
        pid,
        port,
        command: cmd.to_string(),
        full_command: full.to_string(),
        project_dir: dir.map(|d| d.to_string()),
    }
}

#[test]
fn dev_processes_are_recognised() {
    assert!(is_dev_server_process("node"));
    assert!(is_dev_server_process("python3.1"));
    assert!(is_dev_server_process("next-server (v14)"));
    assert!(!is_dev_server_process("postgres"));
    assert!(!is_dev_server_process("Node"));
}

#[test]
fn project_dir_from_command_line() {
    assert_eq!(
        infer_project_dir_from_cmd("node /Users/x/shop/node_modules/.bin/vite --port 3000"),
        Some("/Users/x/shop".to_string())
    );
    assert_eq!(
        infer_project_dir_from_cmd("next-server /srv/site/.next/server/app.js"),
        Some("/srv/site".to_string())
    );
    assert_eq!(infer_project_dir_from_cmd("node ./node_modules/.bin/vite"), None);
    assert_eq!(infer_project_dir_from_cmd(""), None);
    assert_eq!(
        infer_project_dir_from_cmd("node /a/.next/x /b/node_modules/y"),
        Some("/a".to_string())
    );
}

#[test]
fn project_roots_drop_part_directories() {
    assert_eq!(normalize_project_root("/w/shop/frontend"), "/w/shop");
    assert_eq!(normalize_project_root("/w/shop/Backend"), "/w/shop");
    assert_eq!(normalize_project_root("/w/shop/api/"), "/w/shop");
    assert_eq!(normalize_project_root("/w/shop/src"), "/w/shop/src");
    assert_eq!(normalize_project_root("/"), "/");
    assert_eq!(normalize_project_root("web"), "");
}

#[test]
fn service_roles() {
    assert_eq!(detect_service_role(&raw(1, 3000, "node", "node /p/node_modules/.bin/VITE", None)), "frontend");
    assert_eq!(detect_service_role(&raw(1, 8000, "python", "uvicorn main:app", None)), "backend");
    assert_eq!(detect_service_role(&raw(1, 8000, "node", "node index.js", Some("/p/API"))), "backend");
    assert_eq!(detect_service_role(&raw(1, 8000, "node", "node index.js", Some("/p/client"))), "frontend");
    assert_eq!(detect_service_role(&raw(1, 8000, "node", "node index.js", Some("/p"))), "other");
}

#[test]
fn listener_table_is_read() {
    let table = b"p123\ncnode\nn*:3000\nn[::1]:3000\np456\ncpostgres\nn*:5432\np789\ncPython3.1\nn127.0.0.1:8000\np999\ncnode\nn*:80\nn*:9999\np5\nn*:4000\n";
    let entries = parse_lsof_listeners(table);
    assert_eq!(
        entries,
        vec![
            ListenEntry { pid: 123, port: 3000, command: "node".to_string() },
            ListenEntry { pid: 789, port: 8000, command: "Python3.1".to_string() },
            ListenEntry { pid: 999, port: 9999, command: "node".to_string() },
        ]
    );
    assert!(parse_lsof_listeners(b"").is_empty());
    assert!(parse_lsof_listeners(b"n*:3000\n").is_empty());
}

#[test]
fn working_directory_listing() {
    assert_eq!(
        parse_cwd_listing(&Some(b"p123\nfcwd\nn/Users/x/shop\n".to_vec())),
        Some("/Users/x/shop".to_string())
    );
    assert_eq!(parse_cwd_listing(&Some(b"p1\nfcwd\nn/\n".to_vec())), None);
    assert_eq!(parse_cwd_listing(&None), None);
}

#[test]
fn ps_output_is_trimmed() {
    assert_eq!(full_command_from_ps(&Some(b"  node server.js \n".to_vec())), "node server.js");
    assert_eq!(full_command_from_ps(&None), "");
}

#[test]
fn project_dir_prefers_the_working_directory() {
    assert_eq!(resolve_project_dir(&Some("/w/a".to_string()), "node /w/b/node_modules/x"), Some("/w/a".to_string()));
    assert_eq!(resolve_project_dir(&Some("/".to_string()), "node /w/b/node_modules/x"), Some("/w/b".to_string()));
    assert_eq!(resolve_project_dir(&None, "node app.js"), None);
}

#[test]
fn listener_described_by_its_process() {
    let e = ListenEntry { pid: 7, port: 5173, command: "node".to_string() };
    let r = describe_listener(&e, &None, &Some(b"node /w/shop/frontend/node_modules/.bin/vite\n".to_vec()));
    assert_eq!(r, raw(7, 5173, "node", "node /w/shop/frontend/node_modules/.bin/vite", Some("/w/shop/frontend")));
}

#[test]
fn primary_server_prefers_frontend_then_lowest_port() {
    let rs = vec![
        raw(1, 8000, "python", "uvicorn app", Some("/w/shop/backend")),
        raw(2, 5173, "node", "node vite", Some("/w/shop/frontend")),
        raw(3, 4000, "node", "node x", Some("/w/shop/server")),
    ];
    assert_eq!(pick_primary_server(&rs, &vec![0, 1, 2]), 1);
    assert_eq!(pick_primary_server(&rs, &vec![0, 2]), 1);
    let same = vec![raw(1, 4000, "a", "", None), raw(2, 4000, "b", "", None)];
    assert_eq!(pick_primary_server(&same, &vec![0, 1]), 0);
}

#[test]
fn servers_of_one_project_are_merged() {
    let rs = vec![
        raw(11, 8000, "python", "uvicorn main:app", Some("/w/shop/backend")),
        raw(12, 5173, "node", "node /w/shop/frontend/node_modules/.bin/vite", Some("/w/shop/frontend")),
        raw(13, 3001, "ruby", "rails s", None),
        raw(14, 4000, "node", "node index.js", Some("/w/blog")),
    ];
    let grouping = group_servers(&rs);
    assert!(grouping_fits_servers(&rs, &grouping));
    assert_eq!(grouping.groups.len(), 2);
    assert_eq!(grouping.groups[0].root, "/w/shop");
    assert_eq!(grouping.groups[0].members, vec![0, 1]);
    assert_eq!(grouping.groups[1].root, "/w/blog");
    assert_eq!(grouping.ungrouped, vec![2]);
    let infos = vec![
        ProjectInfo { name: Some("shop".to_string()), project_type: Some("Vite".to_string()) },
        ProjectInfo { name: Some("blog".to_string()), project_type: None },
    ];
    let shown = build_dev_servers(&rs, &grouping, &infos);
    assert_eq!(shown.iter().map(|s| s.port).collect::<Vec<_>>(), vec![3001, 4000, 5173]);
    assert_eq!(shown[0].project_name, Some("ruby".to_string()));
    assert_eq!(shown[0].cwd, None);
    assert_eq!(shown[1].cwd, Some("/w/blog".to_string()));
    assert!(shown[1].related_ports.is_empty());
    let shop = &shown[2];
    assert_eq!(shop.pid, 12);
    assert_eq!(shop.cwd, Some("/w/shop".to_string()));
    assert_eq!(shop.project_name, Some("shop".to_string()));
    assert_eq!(shop.related_ports, vec![RelatedPort { port: 8000, role: "backend".to_string() }]);
}

#[test]
fn grouping_rejects_out_of_range_members() {
    let rs = vec![raw(1, 3000, "node", "", Some("/w/a"))];
    let mut grouping = group_servers(&rs);
    assert!(grouping_fits_servers(&rs, &grouping));
    grouping.ungrouped.push(5);
    assert!(!grouping_fits_servers(&rs, &grouping));
}

#[test]
fn sorting_is_stable_by_port() {
    let s = |pid: u32, port: u16| DevServer {
        pid,
        port,
        command: "node".to_string(),
        cwd: None,
        project_name: None,
        project_type: None,
        related_ports: vec![],
    };
    let sorted = sort_by_port(vec![s(1, 5000), s(2, 3000), s(3, 5000), s(4, 4000)]);
    assert_eq!(sorted.iter().map(|d| (d.pid, d.port)).collect::<Vec<_>>(), vec![(2, 3000), (4, 4000), (1, 5000), (3, 5000)]);
    assert!(sort_by_port(vec![]).is_empty());
}

#[test]
fn parsers_on_decoded_text() {
    let entries = parse_lsof_text("p1\ncvite\nn*:5173\n");
    assert_eq!(entries, vec![ListenEntry { pid: 1, port: 5173, command: "vite".to_string() }]);
    assert_eq!(parse_cwd_text("p1\nn/\nn/w/a\n"), Some("/w/a".to_string()));
    assert_eq!(parse_cwd_text(""), None);
    assert_eq!(command_line_from_text("\t deno run x \n"), "deno run x");
}

#[test]
fn roles_and_roots_from_their_parts() {
    assert_eq!(role_from_lowered("node react-scripts start", ""), "frontend");
    assert_eq!(role_from_lowered("node index.js", "/w/shop/server"), "backend");
    assert_eq!(role_from_lowered("node index.js", "/w/shop"), "other");
    assert_eq!(root_from_parts("/w/shop/web", "web", Some("/w/shop".to_string())), "/w/shop");
    assert_eq!(root_from_parts("/w/shop/docs", "docs", Some("/w/shop".to_string())), "/w/shop/docs");
    assert_eq!(root_from_parts("web", "web", None), "web");
}
