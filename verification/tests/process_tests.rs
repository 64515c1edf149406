use devpilot::process::{
    fallback_port, first_port_probe, log_file_path, next_port_probe, stop_actions, PortProbe,
    StopAction,
};
use devpilot::registry::{ProjectStatus, RegisteredProject};

fn project(pid: Option<u32>, port: Option<u16>) -> RegisteredProject {
    RegisteredProject {
        id: "18c".to_string(),
        name: "demo".to_string(),
        path: "/p/demo".to_string(),
        start_command: "npm run dev".to_string(),
        preferred_port: 3000,
        project_type: Some("Vite".to_string()),
        pid,
        actual_port: port,
        status: if pid.is_some() { ProjectStatus::Running } else { ProjectStatus::Stopped },
    }
}

#[test]
fn port_search_walks_the_hundred_ports() {
    assert_eq!(first_port_probe(3000), PortProbe::Probe(3000));
    assert_eq!(next_port_probe(3000, 3000, false), PortProbe::Probe(3001));
    assert_eq!(next_port_probe(3000, 3005, true), PortProbe::Found(3005));
    assert_eq!(next_port_probe(3000, 3099, false), PortProbe::AskSystem);
    assert_eq!(next_port_probe(3000, 3099, true), PortProbe::Found(3099));
}

#[test]
fn port_search_runs_to_the_first_free_port() {
    let busy = [3000u16, 3001, 3002];
    let mut step = first_port_probe(3000);
    let found = loop {
        match step {
            PortProbe::Probe(p) => step = next_port_probe(3000, p, !busy.contains(&p)),
            PortProbe::Found(p) => break p,
            PortProbe::AskSystem => break fallback_port(3000, None),
        }
    };
    assert_eq!(found, 3003);
}

#[test]
fn fallback_prefers_the_system_port() {
    assert_eq!(fallback_port(3000, Some(54321)), 54321);
    assert_eq!(fallback_port(3000, None), 3000);
}

#[test]
fn log_file_path_joins_the_id() {
    assert_eq!(log_file_path("/home/u/.devpilot/logs", "18c"), "/home/u/.devpilot/logs/18c.log");
    assert_eq!(log_file_path("/logs/", "a1"), "/logs/a1.log");
}

#[test]
fn stop_actions_follow_the_process() {
    assert_eq!(
        stop_actions(&project(Some(42), Some(3000))),
        vec![
            StopAction::TerminateGroup(42),
            StopAction::Pause(500),
            StopAction::KillGroup(42),
            StopAction::KillPortListeners(3000)
        ]
    );
    assert_eq!(
        stop_actions(&project(Some(42), None)),
        vec![StopAction::TerminateGroup(42), StopAction::Pause(500), StopAction::KillGroup(42)]
    );
    assert!(stop_actions(&project(None, Some(3000))).is_empty());
}

#[test]
fn stop_after_start_leaves_the_project_stopped() {
    let mut p = project(None, None);
    p.set_running(77, 3005);
    assert_eq!(p.pid, Some(77));
    assert_eq!(p.actual_port, Some(3005));
    assert_eq!(p.status, ProjectStatus::Running);
    p.set_stopped();
    assert_eq!(p, project(None, None));
}
