//! Starting and stopping projects: choosing a free port, the log file, and
//! what stopping a project does.
use vstd::prelude::*;
use crate::paths::{join, path_join};
use crate::registry::RegisteredProject;
use crate::text::concat_text;

verus! {

/// The next step of the search for a free port.
#[derive(PartialEq, Eq, Structural, Clone, Copy, Debug)]
pub enum PortProbe {
    /// Check whether this port is free.
    Probe(u16),
    /// This port is free: use it.
    Found(u16),
    /// None of the hundred ports from the preferred one is free: ask the
    /// system for any free port.
    AskSystem,
}

/// What stopping a project does, step by step.
#[derive(PartialEq, Eq, Structural, Clone, Copy, Debug)]
pub enum StopAction {
    /// Ask the process group `pid` to terminate (`kill -- -PID`).
    TerminateGroup(u32),
    /// Wait this many milliseconds.
    Pause(u64),
    /// Kill the process group `pid` (`kill -9 -PID`).
    KillGroup(u32),
    /// Kill whatever listens on this port (`lsof -ti :PORT | xargs kill -9`).
    KillPortListeners(u16),
}

/// The search may run over the hundred ports from `preferred`.
pub open spec fn port_search_fits(preferred: u16) -> bool {
    preferred as int + 100 <= 65535
}

/// The first step of the search for a free port: try the preferred one.
pub fn first_port_probe(preferred: u16) -> (r: PortProbe)
    requires
        port_search_fits(preferred),
    ensures
        r == PortProbe::Probe(preferred),
{
    PortProbe::Probe(preferred)
}

/// The step after finding whether `probed` is free: use it if it is, else
/// try the next of the hundred ports from `preferred`, else ask the system.
pub open spec fn probe_after(preferred: u16, probed: u16, free: bool) -> PortProbe {
    if free {
        PortProbe::Found(probed)
    } else if probed + 1 < preferred + 100 {
        PortProbe::Probe((probed + 1) as u16)
    } else {
        PortProbe::AskSystem
    }
}

/// The search only ever probes or settles on one of the hundred ports from
/// the preferred one, in ascending order, and settles on a port only once
/// it was found free.
pub proof fn law_port_search_in_range(preferred: u16, probed: u16, free: bool)
    requires
        port_search_fits(preferred),
        preferred <= probed < preferred + 100,
    ensures
        probe_after(preferred, probed, free) matches PortProbe::Found(p) ==> p == probed && free,
        probe_after(preferred, probed, free) matches PortProbe::Probe(q) ==> q == probed + 1 && q
            < preferred + 100 && !free,
        probe_after(preferred, probed, free) is AskSystem ==> !free && probed == preferred + 99,
{
}

/// The step after finding whether `probed` is free.
pub fn next_port_probe(preferred: u16, probed: u16, free: bool) -> (r: PortProbe)
    requires
        port_search_fits(preferred),
        preferred <= probed < preferred + 100,
    ensures
        r == probe_after(preferred, probed, free),
{
    if free {
        PortProbe::Found(probed)
    } else if probed + 1 < preferred + 100 {
        PortProbe::Probe(probed + 1)
    } else {
        PortProbe::AskSystem
    }
}

/// The port to use where none of the hundred was free: the one the system
/// offered, else the preferred one.
pub fn fallback_port(preferred: u16, offered: Option<u16>) -> (r: u16)
    ensures
        r == match offered {
            Some(p) => p,
            None => preferred,
        },
{
    match offered {
        Some(p) => p,
        None => preferred,
    }
}

/// The log file of project `project_id` in the directory `logs_dir`.
pub fn log_file_path(logs_dir: &str, project_id: &str) -> (r: String)
    ensures
        r@ == path_join(logs_dir@, project_id@ + ".log"@),
        logs_dir@.len() > 0 && logs_dir@.last() != '/' && project_id@.len() > 0
            && project_id@[0] != '/' ==> r@ == logs_dir@ + seq!['/'] + project_id@ + ".log"@,
{
    let file = concat_text(project_id, ".log");
    join(logs_dir, file.as_str())
}

/// What stopping `project` does: where it has a process, terminate its
/// group, wait half a second, kill the group, and kill whatever listens on
/// its port; afterwards the project is marked stopped.
pub open spec fn stop_plan(project: RegisteredProject) -> Seq<StopAction> {
    match project.pid {
        Some(pid) => seq![
            StopAction::TerminateGroup(pid),
            StopAction::Pause(500),
            StopAction::KillGroup(pid),
        ] + match project.actual_port {
            Some(port) => seq![StopAction::KillPortListeners(port)],
            None => Seq::empty(),
        },
        None => Seq::empty(),
    }
}

/// The steps that stop `project`.
pub fn stop_actions(project: &RegisteredProject) -> (r: Vec<StopAction>)
    ensures
        r@ == stop_plan(*project),
{
    let mut r: Vec<StopAction> = Vec::new();
    match project.pid {
        Some(pid) => {
            r.push(StopAction::TerminateGroup(pid));
            r.push(StopAction::Pause(500));
            r.push(StopAction::KillGroup(pid));
            match project.actual_port {
                Some(port) => {
                    r.push(StopAction::KillPortListeners(port));
                },
                None => {},
            }
            assert(r@ =~= stop_plan(*project));
        },
        None => {
            assert(r@ =~= stop_plan(*project));
        },
    }
    r
}

} // verus!
