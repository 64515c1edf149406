//! The registry of known projects: adding, removing, finding and updating
//! them, and the ports they prefer.
use vstd::prelude::*;
use crate::clock::unix_millis;
use crate::detect::{detect_project, project_name, project_setup, ProjectFiles};
use crate::text::{chars_of, hex_chars, hex_seq, opt_view, same_text, string_from_chars};

verus! {

/// Whether a project's server is running.
#[derive(PartialEq, Eq, Structural, Clone, Copy, Debug)]
pub enum ProjectStatus {
    Running,
    Stopped,
    Error,
}

/// A project that the registry knows.
#[derive(Clone, Debug, PartialEq, Eq)]
pub struct RegisteredProject {
    pub id: String,
    pub name: String,
    pub path: String,
    pub start_command: String,
    pub preferred_port: u16,
    pub project_type: Option<String>,
    pub pid: Option<u32>,
    pub actual_port: Option<u16>,
    pub status: ProjectStatus,
}

/// The known projects, and the port from which the next one is offered.
#[derive(Clone, Debug, PartialEq, Eq)]
pub struct ProjectRegistry {
    pub projects: Vec<RegisteredProject>,
    pub next_port: u16,
}

/// Why a project could not be added.
#[derive(PartialEq, Eq, Structural, Clone, Copy, Debug)]
pub enum AddProjectError {
    /// A project with the same path is registered already.
    AlreadyAdded,
    /// The directory does not exist.
    DirectoryMissing,
    /// The clock is set before the Unix epoch, so no identifier can be made.
    ClockBeforeEpoch,
}

/// The message shown for a refused addition.
pub open spec fn error_message(e: AddProjectError) -> Seq<char> {
    match e {
        AddProjectError::AlreadyAdded => "该项目已添加"@,
        AddProjectError::DirectoryMissing => "目录不存在"@,
        AddProjectError::ClockBeforeEpoch => "系统时间早于 Unix 纪元"@,
    }
}

impl AddProjectError {
    /// The message shown to the user.
    pub fn message(&self) -> (r: String)
        ensures
            r@ == error_message(*self),
    {
        match self {
            AddProjectError::AlreadyAdded => "该项目已添加".to_owned(),
            AddProjectError::DirectoryMissing => "目录不存在".to_owned(),
            AddProjectError::ClockBeforeEpoch => "系统时间早于 Unix 纪元".to_owned(),
        }
    }
}

// ---------------------------------------------------------------------------
// Specifications
// ---------------------------------------------------------------------------

/// Some project has the path `path`.
pub open spec fn has_path(ps: Seq<RegisteredProject>, path: Seq<char>) -> bool {
    exists|i: int| 0 <= i < ps.len() && ps[i].path@ == path
}

/// The first project at or after `k` with the path `path`.
pub open spec fn path_index_from(ps: Seq<RegisteredProject>, path: Seq<char>, k: int) -> Option<int>
    decreases ps.len() - k,
{
    if k < 0 || k >= ps.len() {
        None
    } else if ps[k].path@ == path {
        Some(k)
    } else {
        path_index_from(ps, path, k + 1)
    }
}

/// The first project with the path `path`.
pub open spec fn path_index(ps: Seq<RegisteredProject>, path: Seq<char>) -> Option<int> {
    path_index_from(ps, path, 0)
}

/// The first project at or after `k` with the identifier `id`.
pub open spec fn id_index_from(ps: Seq<RegisteredProject>, id: Seq<char>, k: int) -> Option<int>
    decreases ps.len() - k,
{
    if k < 0 || k >= ps.len() {
        None
    } else if ps[k].id@ == id {
        Some(k)
    } else {
        id_index_from(ps, id, k + 1)
    }
}

/// The first project with the identifier `id`.
pub open spec fn id_index(ps: Seq<RegisteredProject>, id: Seq<char>) -> Option<int> {
    id_index_from(ps, id, 0)
}

/// Some project prefers the port `port`.
pub open spec fn uses_port(ps: Seq<RegisteredProject>, port: int) -> bool {
    exists|i: int| 0 <= i < ps.len() && ps[i].preferred_port == port
}

/// The first port from `start` on that no project prefers (stopping at 65535).
pub open spec fn first_free_port(ps: Seq<RegisteredProject>, start: int) -> int
    decreases 65535 - start,
{
    if start >= 65535 || !uses_port(ps, start) {
        start
    } else {
        first_free_port(ps, start + 1)
    }
}

/// A port can be offered from `next`: the first free one is below 65535, so
/// that the port after it exists too.
pub open spec fn can_allocate(ps: Seq<RegisteredProject>, next: u16) -> bool {
    first_free_port(ps, next as int) < 65535
}

/// No two projects share a path.
pub open spec fn distinct_paths(ps: Seq<RegisteredProject>) -> bool {
    forall|i: int, j: int| 0 <= i < j < ps.len() ==> ps[i].path@ != ps[j].path@
}

/// No two projects prefer the same port.
pub open spec fn distinct_ports(ps: Seq<RegisteredProject>) -> bool {
    forall|i: int, j: int| 0 <= i < j < ps.len() ==> ps[i].preferred_port != ps[j].preferred_port
}

/// `p` running as process `pid` on `port`.
pub open spec fn running(p: RegisteredProject, pid: u32, port: u16) -> RegisteredProject {
    RegisteredProject { pid: Some(pid), actual_port: Some(port), status: ProjectStatus::Running, ..p }
}

/// `p` stopped.
pub open spec fn stopped(p: RegisteredProject) -> RegisteredProject {
    RegisteredProject { pid: None, actual_port: None, status: ProjectStatus::Stopped, ..p }
}

/// `p` is marked running, but its process is not among the live ones.
pub open spec fn should_stop(p: RegisteredProject, alive: Seq<u32>) -> bool {
    p.status == ProjectStatus::Running && !(p.pid matches Some(x) && alive.contains(x))
}

/// `p` after its liveness is checked against the live processes `alive`.
pub open spec fn refreshed(p: RegisteredProject, alive: Seq<u32>) -> RegisteredProject {
    if should_stop(p, alive) {
        stopped(p)
    } else {
        p
    }
}

/// The projects after their liveness is checked against `alive`.
pub open spec fn refresh_all(ps: Seq<RegisteredProject>, alive: Seq<u32>) -> Seq<RegisteredProject> {
    ps.map_values(|p: RegisteredProject| refreshed(p, alive))
}

/// The first project with the path `path` runs as process `pid` on `port`.
pub open spec fn runs_at(ps: Seq<RegisteredProject>, path: Seq<char>, pid: u32, port: u16) -> bool {
    path_index(ps, path) matches Some(i) && ps[i].pid == Some(pid) && ps[i].actual_port == Some(
        port,
    ) && ps[i].status == ProjectStatus::Running
}

/// The process ids of the projects marked running.
pub open spec fn running_pids_of(ps: Seq<RegisteredProject>) -> Seq<u32>
    decreases ps.len(),
{
    if ps.len() == 0 {
        Seq::empty()
    } else {
        let prev = running_pids_of(ps.drop_last());
        let p = ps.last();
        if p.status == ProjectStatus::Running && p.pid is Some {
            prev.push(p.pid.unwrap())
        } else {
            prev
        }
    }
}

/// `p` is what registering the directory `path` under `name` makes of it,
/// with the files `files`, the port `port` and the identifier `id`.
pub open spec fn is_new_project(
    p: RegisteredProject,
    path: Seq<char>,
    name: Option<Seq<char>>,
    files: ProjectFiles,
    port: int,
    id: Seq<char>,
) -> bool {
    &&& p.id@ == id
    &&& p.name@ == match name {
        Some(n) => n,
        None => project_name(path),
    }
    &&& p.path@ == path
    &&& (opt_view(p.project_type), p.start_command@) == project_setup(files)
    &&& p.preferred_port == port
    &&& p.pid is None
    &&& p.actual_port is None
    &&& p.status == ProjectStatus::Stopped
}

// ---------------------------------------------------------------------------
// Lemmas
// ---------------------------------------------------------------------------

/// The path search finds the first project with the path, and finds one
/// exactly when there is one.
pub proof fn lemma_path_index_from(ps: Seq<RegisteredProject>, path: Seq<char>, k: int)
    requires
        0 <= k,
    ensures
        path_index_from(ps, path, k) matches Some(i) ==> k <= i < ps.len() && ps[i].path@ == path
            && forall|j: int| k <= j < i ==> ps[j].path@ != path,
        path_index_from(ps, path, k) is None ==> forall|j: int|
            k <= j < ps.len() ==> ps[j].path@ != path,
    decreases ps.len() - k,
{
    if k < ps.len() && ps[k].path@ != path {
        lemma_path_index_from(ps, path, k + 1);
    }
}

/// The identifier search finds the first project with the identifier, and
/// finds one exactly when there is one.
pub proof fn lemma_id_index_from(ps: Seq<RegisteredProject>, id: Seq<char>, k: int)
    requires
        0 <= k,
    ensures
        id_index_from(ps, id, k) matches Some(i) ==> k <= i < ps.len() && ps[i].id@ == id && forall|
            j: int,
        | k <= j < i ==> ps[j].id@ != id,
        id_index_from(ps, id, k) is None ==> forall|j: int| k <= j < ps.len() ==> ps[j].id@ != id,
    decreases ps.len() - k,
{
    if k < ps.len() && ps[k].id@ != id {
        lemma_id_index_from(ps, id, k + 1);
    }
}

/// The first free port is free, at least `start`, and every port between is taken.
pub proof fn lemma_first_free_port(ps: Seq<RegisteredProject>, start: int)
    ensures
        start <= first_free_port(ps, start),
        first_free_port(ps, start) < 65535 ==> !uses_port(ps, first_free_port(ps, start)),
        forall|q: int| start <= q < first_free_port(ps, start) ==> uses_port(ps, q),
    decreases 65535 - start,
{
    if start < 65535 && uses_port(ps, start) {
        lemma_first_free_port(ps, start + 1);
    }
}


// ---------------------------------------------------------------------------
// Projects
// ---------------------------------------------------------------------------

fn copy_text(s: &String) -> (r: String)
    ensures
        r@ == s@,
{
    s.clone()
}

fn copy_opt_text(o: &Option<String>) -> (r: Option<String>)
    ensures
        r == *o,
{
    match o {
        Some(s) => Some(s.clone()),
        None => None,
    }
}

/// A project identifier made from milliseconds since the Unix epoch: their
/// lower-case hexadecimal digits.
pub fn id_from_millis(millis: u128) -> (r: String)
    ensures
        r@ == hex_seq(millis as nat),
{
    string_from_chars(&hex_chars(millis))
}

/// A fresh project identifier: the current time in milliseconds since the
/// Unix epoch, in hexadecimal (`None` where the clock is set before the
/// epoch).
pub fn generate_id() -> (r: Option<String>)
    ensures
        r matches Some(id) ==> exists|n: nat| id@ == hex_seq(n),
{
    match unix_millis() {
        Some(ms) => Some(id_from_millis(ms)),
        None => None,
    }
}

impl RegisteredProject {
    /// A copy of the project.
    pub fn duplicate(&self) -> (r: RegisteredProject)
        ensures
            r == *self,
    {
        RegisteredProject {
            id: self.id.clone(),
            name: self.name.clone(),
            path: self.path.clone(),
            start_command: self.start_command.clone(),
            preferred_port: self.preferred_port,
            project_type: copy_opt_text(&self.project_type),
            pid: self.pid,
            actual_port: self.actual_port,
            status: self.status,
        }
    }

    /// Marks the project running as process `pid` on `port`.
    pub fn set_running(&mut self, pid: u32, port: u16)
        ensures
            *final(self) == running(*old(self), pid, port),
    {
        self.pid = Some(pid);
        self.actual_port = Some(port);
        self.status = ProjectStatus::Running;
    }

    /// Marks the project stopped.
    pub fn set_stopped(&mut self)
        ensures
            *final(self) == stopped(*old(self)),
    {
        self.pid = None;
        self.actual_port = None;
        self.status = ProjectStatus::Stopped;
    }
}

impl ProjectRegistry {
    /// The registry before any project is known: ports are offered from 3000.
    pub fn initial() -> (r: ProjectRegistry)
        ensures
            r.projects@.len() == 0,
            r.next_port == 3000,
    {
        ProjectRegistry { projects: Vec::new(), next_port: 3000 }
    }

    /// Whether some project has the path `path`.
    fn position_of_path(&self, path: &str) -> (r: Option<usize>)
        ensures
            match r {
                Some(i) => path_index(self.projects@, path@) == Some(i as int),
                None => path_index(self.projects@, path@) is None,
            },
    {
        let mut i: usize = 0;
        while i < self.projects.len()
            invariant
                i <= self.projects.len(),
                path_index(self.projects@, path@) == path_index_from(
                    self.projects@,
                    path@,
                    i as int,
                ),
            decreases self.projects.len() - i,
        {
            if same_text(self.projects[i].path.as_str(), path) {
                return Some(i);
            }
            i = i + 1;
        }
        None
    }

    /// Whether some project has the path `path`.
    pub fn contains_path(&self, path: &str) -> (r: bool)
        ensures
            r == has_path(self.projects@, path@),
    {
        proof {
            lemma_path_index_from(self.projects@, path@, 0);
        }
        self.position_of_path(path).is_some()
    }

    /// Whether a port can be offered to a new project (the first free port
    /// from `next_port` on is below 65535).
    pub fn can_allocate_port(&self) -> (r: bool)
        ensures
            r == can_allocate(self.projects@, self.next_port),
    {
        let mut port = self.next_port;
        while port < 65535 && self.port_in_use(port)
            invariant
                first_free_port(self.projects@, port as int) == first_free_port(
                    self.projects@,
                    self.next_port as int,
                ),
            decreases 65535 - port,
        {
            port = port + 1;
        }
        port < 65535
    }

    /// Whether some project prefers `port`.
    fn port_in_use(&self, port: u16) -> (r: bool)
        ensures
            r == uses_port(self.projects@, port as int),
    {
        let mut i: usize = 0;
        while i < self.projects.len()
            invariant
                i <= self.projects.len(),
                forall|j: int| 0 <= j < i ==> self.projects@[j].preferred_port != port,
            decreases self.projects.len() - i,
        {
            if self.projects[i].preferred_port == port {
                return true;
            }
            i = i + 1;
        }
        false
    }

    /// Offers the first port from `next_port` on that no project prefers,
    /// and moves `next_port` past it.
    fn allocate_port(&mut self) -> (r: u16)
        requires
            can_allocate(old(self).projects@, old(self).next_port),
        ensures
            r as int == first_free_port(old(self).projects@, old(self).next_port as int),
            final(self).next_port == r + 1,
            final(self).projects@ == old(self).projects@,
    {
        let mut port = self.next_port;
        proof {
            lemma_first_free_port(self.projects@, port as int);
        }
        while self.port_in_use(port)
            invariant
                self.projects@ == old(self).projects@,
                self.next_port == old(self).next_port,
                can_allocate(self.projects@, self.next_port),
                first_free_port(self.projects@, port as int) == first_free_port(
                    self.projects@,
                    self.next_port as int,
                ),
                port <= first_free_port(self.projects@, port as int),
            decreases 65535 - port,
        {
            proof {
                lemma_first_free_port(self.projects@, port as int);
            }
            port = port + 1;
        }
        proof {
            lemma_first_free_port(self.projects@, port as int);
        }
        self.next_port = port + 1;
        port
    }

    /// Registers the directory `path` (whose files are `files`) under the
    /// identifier `id`: named `name` or else after the directory, with the
    /// kind and start command that detection finds, and the first free port.
    pub fn register_project(
        &mut self,
        path: &str,
        name: Option<String>,
        files: &ProjectFiles,
        id: String,
    ) -> (r: RegisteredProject)
        requires
            can_allocate(old(self).projects@, old(self).next_port),
        ensures
            is_new_project(
                r,
                path@,
                opt_view(name),
                *files,
                first_free_port(old(self).projects@, old(self).next_port as int),
                id@,
            ),
            final(self).projects@ == old(self).projects@.push(r),
            final(self).next_port == r.preferred_port + 1,
            !uses_port(old(self).projects@, r.preferred_port as int),
    {
        let detected = detect_project(path, files);
        let project_name = match name {
            Some(n) => n,
            None => detected.name,
        };
        let port = self.allocate_port();
        proof {
            lemma_first_free_port(old(self).projects@, old(self).next_port as int);
        }
        let project = RegisteredProject {
            id,
            name: project_name,
            path: string_from_chars(&chars_of(path)),
            start_command: detected.start_command,
            preferred_port: port,
            project_type: detected.project_type,
            pid: None,
            actual_port: None,
            status: ProjectStatus::Stopped,
        };
        self.projects.push(project.duplicate());
        project
    }

    /// Adds the directory `path` as a project named `name` (or after the
    /// directory). `dir_exists` and `files` say what is on disk there.
    /// Refused where a project has the path already or the directory does
    /// not exist; otherwise the project gets the kind and start command that
    /// detection finds, the first free port, and an identifier from the clock.
    pub fn add_project(
        &mut self,
        path: &str,
        name: Option<String>,
        dir_exists: bool,
        files: &ProjectFiles,
    ) -> (r: Result<RegisteredProject, AddProjectError>)
        requires
            !has_path(old(self).projects@, path@) && dir_exists ==> can_allocate(
                old(self).projects@,
                old(self).next_port,
            ),
        ensures
            has_path(old(self).projects@, path@) ==> r == Err::<RegisteredProject, AddProjectError>(
                AddProjectError::AlreadyAdded,
            ),
            !has_path(old(self).projects@, path@) && !dir_exists ==> r == Err::<
                RegisteredProject,
                AddProjectError,
            >(AddProjectError::DirectoryMissing),
            !has_path(old(self).projects@, path@) && dir_exists ==> r is Ok || r == Err::<
                RegisteredProject,
                AddProjectError,
            >(AddProjectError::ClockBeforeEpoch),
            r is Err ==> final(self).projects@ == old(self).projects@ && final(self).next_port
                == old(self).next_port,
            r matches Ok(p) ==> {
                &&& is_new_project(
                    p,
                    path@,
                    opt_view(name),
                    *files,
                    first_free_port(old(self).projects@, old(self).next_port as int),
                    p.id@,
                )
                &&& exists|n: nat| p.id@ == hex_seq(n)
                &&& final(self).projects@ == old(self).projects@.push(p)
                &&& final(self).next_port == p.preferred_port + 1
            },
            distinct_paths(old(self).projects@) ==> distinct_paths(final(self).projects@),
            distinct_ports(old(self).projects@) ==> distinct_ports(final(self).projects@),
    {
        proof {
            lemma_path_index_from(self.projects@, path@, 0);
        }
        if self.position_of_path(path).is_some() {
            return Err(AddProjectError::AlreadyAdded);
        }
        if !dir_exists {
            return Err(AddProjectError::DirectoryMissing);
        }
        let id = match generate_id() {
            Some(id) => id,
            None => {
                return Err(AddProjectError::ClockBeforeEpoch);
            },
        };
        let project = self.register_project(path, name, files, id);
        Ok(project)
    }

    /// Removes every project with the identifier `id`, keeping the others in order.
    pub fn remove_project(&mut self, id: &str)
        ensures
            final(self).projects@ == old(self).projects@.filter(
                |p: RegisteredProject| p.id@ != id@,
            ),
            final(self).next_port == old(self).next_port,
            forall|i: int|
                0 <= i < final(self).projects@.len() ==> #[trigger] final(self).projects@[i].id@
                    != id@,
            distinct_paths(old(self).projects@) ==> distinct_paths(final(self).projects@),
            distinct_ports(old(self).projects@) ==> distinct_ports(final(self).projects@),
    {
        let ghost keep = |p: RegisteredProject| p.id@ != id@;
        let ghost ps = self.projects@;
        let mut kept: Vec<RegisteredProject> = Vec::new();
        let mut i: usize = 0;
        assert(ps.take(0) =~= Seq::<RegisteredProject>::empty());
        proof {
            reveal(Seq::filter);
        }
        while i < self.projects.len()
            invariant
                i <= self.projects.len(),
                ps == self.projects@,
                keep == (|p: RegisteredProject| p.id@ != id@),
                kept@ == ps.take(i as int).filter(keep),
            decreases self.projects.len() - i,
        {
            proof {
                ps.take(i as int).lemma_filter_push(ps[i as int], keep);
            }
            assert(ps.take(i + 1) =~= ps.take(i as int).push(ps[i as int]));
            assert(keep(ps[i as int]) == (ps[i as int].id@ != id@));
            if !same_text(self.projects[i].id.as_str(), id) {
                let d = self.projects[i].duplicate();
                kept.push(d);
                assert(kept@ =~= ps.take(i as int).filter(keep).push(ps[i as int]));
            }
            i = i + 1;
        }
        assert(ps.take(ps.len() as int) =~= ps);
        proof {
            broadcast use vstd::seq_lib::group_filter_ensures;

            lemma_filter_distinct(ps, keep);
        }
        self.projects = kept;
    }

    /// Marks the `i`-th project running as process `pid` on `port`.
    fn mark_running_at(&mut self, i: usize, pid: u32, port: u16)
        requires
            i < old(self).projects@.len(),
        ensures
            final(self).projects@ == old(self).projects@.update(
                i as int,
                running(old(self).projects@[i as int], pid, port),
            ),
            final(self).next_port == old(self).next_port,
            distinct_paths(old(self).projects@) ==> distinct_paths(final(self).projects@),
            distinct_ports(old(self).projects@) ==> distinct_ports(final(self).projects@),
            forall|k: int|
                0 <= k < final(self).projects@.len() ==> #[trigger] final(self).projects@[k].path@
                    == old(self).projects@[k].path@,
    {
        self.projects[i].set_running(pid, port);
        proof {
            let ps = final(self).projects@;
            let olds = old(self).projects@;
            assert forall|a: int, b: int|
                0 <= a < b < ps.len() && distinct_paths(olds) implies ps[a].path@ != ps[b].path@ by {
                assert(ps[a].path@ == olds[a].path@ && ps[b].path@ == olds[b].path@);
            }
            assert forall|a: int, b: int|
                0 <= a < b < ps.len() && distinct_ports(olds) implies ps[a].preferred_port
                != ps[b].preferred_port by {
                assert(ps[a].preferred_port == olds[a].preferred_port);
                assert(ps[b].preferred_port == olds[b].preferred_port);
            }
        }
    }

    /// Records a discovered server of the directory `path` (process `pid` on
    /// `port`), registering a new project under the identifier `id` where
    /// needed: the first project with that path is marked running; where
    /// there is none and the directory exists, it is registered as
    /// `register_project` does it and marked running; otherwise nothing
    /// changes.
    pub fn sync_discovered_with_id(
        &mut self,
        path: &str,
        pid: u32,
        port: u16,
        dir_exists: bool,
        files: &ProjectFiles,
        id: String,
    )
        requires
            !has_path(old(self).projects@, path@) && dir_exists ==> can_allocate(
                old(self).projects@,
                old(self).next_port,
            ),
        ensures
            match path_index(old(self).projects@, path@) {
                Some(i) => final(self).projects@ == old(self).projects@.update(
                    i,
                    running(old(self).projects@[i], pid, port),
                ) && final(self).next_port == old(self).next_port,
                None => if dir_exists {
                    &&& exists|q: RegisteredProject|
                        is_new_project(
                            q,
                            path@,
                            None,
                            *files,
                            first_free_port(old(self).projects@, old(self).next_port as int),
                            id@,
                        ) && final(self).projects@ == old(self).projects@.push(running(q, pid, port))
                    &&& final(self).next_port == first_free_port(
                        old(self).projects@,
                        old(self).next_port as int,
                    ) + 1
                } else {
                    final(self).projects@ == old(self).projects@ && final(self).next_port == old(
                        self,
                    ).next_port
                },
            },
            has_path(old(self).projects@, path@) || dir_exists ==> runs_at(
                final(self).projects@,
                path@,
                pid,
                port,
            ),
            distinct_paths(old(self).projects@) ==> distinct_paths(final(self).projects@),
            distinct_ports(old(self).projects@) ==> distinct_ports(final(self).projects@),
    {
        proof {
            lemma_path_index_from(self.projects@, path@, 0);
        }
        match self.position_of_path(path) {
            Some(i) => {
                self.mark_running_at(i, pid, port);
                proof {
                    lemma_path_index_from(self.projects@, path@, 0);
                    assert(self.projects@[i as int].path@ == path@);
                    assert forall|k: int| 0 <= k < i implies self.projects@[k].path@ != path@ by {
                        assert(self.projects@[k].path@ == old(self).projects@[k].path@);
                    }
                    assert(path_index(self.projects@, path@) == Some(i as int));
                }
            },
            None => {
                if dir_exists {
                    let q = self.register_project(path, None, files, id);
                    let ghost before = self.projects@;
                    let n = self.projects.len() - 1;
                    self.mark_running_at(n, pid, port);
                    proof {
                        assert(self.projects@ =~= old(self).projects@.push(running(q, pid, port)));
                        lemma_path_index_from(self.projects@, path@, 0);
                        assert(self.projects@[n as int].path@ == path@);
                        assert forall|k: int| 0 <= k < n implies self.projects@[k].path@ != path@ by {
                            assert(self.projects@[k] == old(self).projects@[k]);
                        }
                        assert(path_index(self.projects@, path@) == Some(n as int));
                    }
                }
            },
        }
    }

    /// Records a discovered server of the directory `path` (process `pid` on
    /// `port`): the first project with that path is marked running; where
    /// there is none and the directory exists, a fresh identifier is made
    /// from the clock and the directory is registered and marked running as
    /// `sync_discovered_with_id` does it (nothing changes where the clock is
    /// set before the Unix epoch). `dir_exists` and `files` say what is on
    /// disk there.
    pub fn sync_discovered(
        &mut self,
        path: &str,
        pid: u32,
        port: u16,
        dir_exists: bool,
        files: &ProjectFiles,
    )
        requires
            !has_path(old(self).projects@, path@) && dir_exists ==> can_allocate(
                old(self).projects@,
                old(self).next_port,
            ),
        ensures
            match path_index(old(self).projects@, path@) {
                Some(i) => final(self).projects@ == old(self).projects@.update(
                    i,
                    running(old(self).projects@[i], pid, port),
                ) && final(self).next_port == old(self).next_port,
                None => {
                    ||| final(self).projects@ == old(self).projects@ && final(self).next_port == old(
                        self,
                    ).next_port
                    ||| {
                        &&& dir_exists
                        &&& exists|q: RegisteredProject|
                            is_new_project(
                                q,
                                path@,
                                None,
                                *files,
                                first_free_port(old(self).projects@, old(self).next_port as int),
                                q.id@,
                            ) && (exists|n: nat| q.id@ == hex_seq(n)) && final(self).projects@
                                == old(self).projects@.push(running(q, pid, port))
                        &&& final(self).next_port == first_free_port(
                            old(self).projects@,
                            old(self).next_port as int,
                        ) + 1
                        &&& runs_at(final(self).projects@, path@, pid, port)
                    }
                },
            },
            has_path(old(self).projects@, path@) ==> runs_at(final(self).projects@, path@, pid, port),
            !dir_exists && !has_path(old(self).projects@, path@) ==> final(self).projects@ == old(
                self,
            ).projects@ && final(self).next_port == old(self).next_port,
            distinct_paths(old(self).projects@) ==> distinct_paths(final(self).projects@),
            distinct_ports(old(self).projects@) ==> distinct_ports(final(self).projects@),
    {
        proof {
            lemma_path_index_from(self.projects@, path@, 0);
        }
        if self.contains_path(path) || !dir_exists {
            self.sync_discovered_with_id(path, pid, port, dir_exists, files, String::new());
        } else {
            match generate_id() {
                Some(id) => {
                    self.sync_discovered_with_id(path, pid, port, dir_exists, files, id);
                },
                None => {},
            }
        }
    }

    /// The first project with the identifier `id`, to be changed in place.
    pub fn find_mut(&mut self, id: &str) -> (r: Option<&mut RegisteredProject>)
        ensures
            match id_index(old(self).projects@, id@) {
                Some(i) => r is Some && *r->0 == old(self).projects@[i] && final(self).projects@
                    == old(self).projects@.update(i, *final(r->0)) && final(self).next_port == old(
                    self,
                ).next_port,
                None => r is None && final(self).projects@ == old(self).projects@
                    && final(self).next_port == old(self).next_port,
            },
    {
        let mut i: usize = 0;
        while i < self.projects.len()
            invariant
                i <= self.projects.len(),
                self.projects@ == old(self).projects@,
                self.next_port == old(self).next_port,
                id_index(self.projects@, id@) == id_index_from(self.projects@, id@, i as int),
            decreases self.projects.len() - i,
        {
            if same_text(self.projects[i].id.as_str(), id) {
                return Some(&mut self.projects[i]);
            }
            i = i + 1;
        }
        None
    }
}

impl ProjectRegistry {
    /// The process ids of the projects marked running, whose liveness is to
    /// be checked.
    pub fn running_pids(&self) -> (r: Vec<u32>)
        ensures
            r@ == running_pids_of(self.projects@),
    {
        let mut r: Vec<u32> = Vec::new();
        let mut i: usize = 0;
        while i < self.projects.len()
            invariant
                i <= self.projects.len(),
                r@ == running_pids_of(self.projects@.take(i as int)),
            decreases self.projects.len() - i,
        {
            assert(self.projects@.take(i + 1).drop_last() =~= self.projects@.take(i as int));
            let p = &self.projects[i];
            if p.status == ProjectStatus::Running {
                match p.pid {
                    Some(pid) => {
                        r.push(pid);
                    },
                    None => {},
                }
            }
            i = i + 1;
        }
        assert(self.projects@.take(self.projects.len() as int) =~= self.projects@);
        r
    }

    /// Checks the projects marked running against the live processes
    /// `alive_pids`: those whose process is gone are marked stopped. Returns
    /// whether any project changed.
    pub fn refresh_statuses(&mut self, alive_pids: &Vec<u32>) -> (r: bool)
        ensures
            final(self).projects@ == refresh_all(old(self).projects@, alive_pids@),
            final(self).next_port == old(self).next_port,
            r == exists|i: int|
                0 <= i < old(self).projects@.len() && should_stop(
                    #[trigger] old(self).projects@[i],
                    alive_pids@,
                ),
            forall|i: int|
                0 <= i < final(self).projects@.len() ==> !should_stop(
                    #[trigger] final(self).projects@[i],
                    alive_pids@,
                ),
            distinct_paths(old(self).projects@) ==> distinct_paths(final(self).projects@),
            distinct_ports(old(self).projects@) ==> distinct_ports(final(self).projects@),
    {
        let ghost olds = self.projects@;
        let mut changed = false;
        let mut i: usize = 0;
        while i < self.projects.len()
            invariant
                i <= self.projects.len(),
                self.projects@.len() == olds.len(),
                self.next_port == old(self).next_port,
                olds == old(self).projects@,
                forall|k: int| 0 <= k < i ==> #[trigger] self.projects@[k] == refreshed(olds[k], alive_pids@),
                forall|k: int| i <= k < olds.len() ==> #[trigger] self.projects@[k] == olds[k],
                changed == exists|k: int| 0 <= k < i && should_stop(#[trigger] olds[k], alive_pids@),
            decreases self.projects.len() - i,
        {
            let stop = if self.projects[i].status == ProjectStatus::Running {
                match self.projects[i].pid {
                    Some(pid) => !vec_has(alive_pids, pid),
                    None => true,
                }
            } else {
                false
            };
            assert(stop == should_stop(olds[i as int], alive_pids@));
            if stop {
                self.projects[i].set_stopped();
                changed = true;
            }
            i = i + 1;
        }
        proof {
            let ps = self.projects@;
            assert(ps =~= refresh_all(olds, alive_pids@));
            assert forall|k: int| 0 <= k < ps.len() implies !should_stop(#[trigger] ps[k], alive_pids@) by {
                assert(ps[k] == refreshed(olds[k], alive_pids@));
            }
            assert forall|a: int, b: int|
                0 <= a < b < ps.len() && distinct_paths(olds) implies ps[a].path@ != ps[b].path@ by {
                assert(ps[a] == refreshed(olds[a], alive_pids@));
                assert(ps[b] == refreshed(olds[b], alive_pids@));
            }
            assert forall|a: int, b: int|
                0 <= a < b < ps.len() && distinct_ports(olds) implies ps[a].preferred_port
                != ps[b].preferred_port by {
                assert(ps[a] == refreshed(olds[a], alive_pids@));
                assert(ps[b] == refreshed(olds[b], alive_pids@));
            }
        }
        changed
    }
}

/// Whether `v` holds `x`.
fn vec_has(v: &Vec<u32>, x: u32) -> (r: bool)
    ensures
        r == v@.contains(x),
{
    let mut i: usize = 0;
    while i < v.len()
        invariant
            i <= v.len(),
            forall|k: int| 0 <= k < i ==> v@[k] != x,
        decreases v.len() - i,
    {
        if v[i] == x {
            assert(v@[i as int] == x);
            return true;
        }
        i = i + 1;
    }
    false
}

// ---------------------------------------------------------------------------
// Laws
// ---------------------------------------------------------------------------

/// Once the projects with identifier `id` are removed, looking the
/// identifier up finds nothing.
pub proof fn law_removed_id_not_found(ps: Seq<RegisteredProject>, id: Seq<char>)
    ensures
        id_index(ps.filter(|p: RegisteredProject| p.id@ != id), id) is None,
{
    broadcast use vstd::seq_lib::group_filter_ensures;

    let f = ps.filter(|p: RegisteredProject| p.id@ != id);
    lemma_id_index_from(f, id, 0);
    if id_index(f, id) is Some {
        let i = id_index(f, id).unwrap();
        assert(f[i].id@ == id);
    }
}

/// Checking liveness twice against the same live processes changes nothing
/// the second time: the projects stay as the first check left them, and
/// none of them needs stopping.
pub proof fn law_refresh_settles(ps: Seq<RegisteredProject>, alive: Seq<u32>)
    ensures
        refresh_all(refresh_all(ps, alive), alive) == refresh_all(ps, alive),
        forall|i: int| 0 <= i < ps.len() ==> !should_stop(#[trigger] refresh_all(ps, alive)[i], alive),
{
    let once = refresh_all(ps, alive);
    assert(refresh_all(once, alive) =~= once);
}

/// Stopping a project that was started leaves it as stopping it alone does:
/// no process, no port, stopped, with everything else kept.
pub proof fn law_stop_undoes_start(p: RegisteredProject, pid: u32, port: u16)
    ensures
        stopped(running(p, pid, port)) == stopped(p),
        stopped(p).id == p.id && stopped(p).path == p.path && stopped(p).preferred_port
            == p.preferred_port,
{
}

/// Once a discovered server is recorded, recording it again changes
/// nothing: the first project with its path already runs as that process on
/// that port, so marking it running again leaves every project as it is.
pub proof fn law_sync_again_changes_nothing(
    ps: Seq<RegisteredProject>,
    path: Seq<char>,
    pid: u32,
    port: u16,
)
    requires
        runs_at(ps, path, pid, port),
    ensures
        path_index(ps, path) matches Some(i) && ps.update(i, running(ps[i], pid, port)) == ps,
{
    lemma_path_index_from(ps, path, 0);
    let i = path_index(ps, path).unwrap();
    assert(running(ps[i], pid, port) == ps[i]);
    assert(ps.update(i, running(ps[i], pid, port)) =~= ps);
}

/// Recording the same running process twice is the same as recording it once.
pub proof fn law_running_idempotent(p: RegisteredProject, pid: u32, port: u16)
    ensures
        running(running(p, pid, port), pid, port) == running(p, pid, port),
{
}

/// Every project that filtering keeps is one of the projects.
pub proof fn lemma_filter_members(
    ps: Seq<RegisteredProject>,
    keep: spec_fn(RegisteredProject) -> bool,
)
    ensures
        forall|a: int|
            0 <= a < ps.filter(keep).len() ==> exists|b: int|
                0 <= b < ps.len() && #[trigger] ps.filter(keep)[a] == ps[b],
    decreases ps.len(),
{
    reveal(Seq::filter);
    if ps.len() > 0 {
        lemma_filter_members(ps.drop_last(), keep);
        let f0 = ps.drop_last().filter(keep);
        assert forall|a: int| 0 <= a < ps.filter(keep).len() implies exists|b: int|
            0 <= b < ps.len() && #[trigger] ps.filter(keep)[a] == ps[b] by {
            if a < f0.len() {
                let b = choose|b: int| 0 <= b < ps.drop_last().len() && f0[a] == ps.drop_last()[b];
                assert(ps.filter(keep)[a] == ps[b]);
            } else {
                assert(ps.filter(keep)[a] == ps[ps.len() - 1]);
            }
        }
    }
}

/// Filtering keeps paths and preferred ports distinct.
pub proof fn lemma_filter_distinct(
    ps: Seq<RegisteredProject>,
    keep: spec_fn(RegisteredProject) -> bool,
)
    ensures
        distinct_paths(ps) ==> distinct_paths(ps.filter(keep)),
        distinct_ports(ps) ==> distinct_ports(ps.filter(keep)),
    decreases ps.len(),
{
    reveal(Seq::filter);
    if ps.len() > 0 {
        let d = ps.drop_last();
        lemma_filter_distinct(d, keep);
        lemma_filter_members(d, keep);
        let f0 = d.filter(keep);
        if keep(ps.last()) {
            let f = ps.filter(keep);
            assert(f == f0.push(ps.last()));
            if distinct_paths(ps) {
                assert(distinct_paths(d));
                assert forall|a: int, b: int| 0 <= a < b < f.len() implies f[a].path@ != f[b].path@ by {
                    if b == f.len() - 1 {
                        let c = choose|c: int| 0 <= c < d.len() && #[trigger] f0[a] == d[c];
                        assert(d[c] == ps[c]);
                    } else {
                        assert(f[a] == f0[a] && f[b] == f0[b]);
                    }
                }
            }
            if distinct_ports(ps) {
                assert(distinct_ports(d));
                assert forall|a: int, b: int| 0 <= a < b < f.len() implies f[a].preferred_port != f[b].preferred_port by {
                    if b == f.len() - 1 {
                        let c = choose|c: int| 0 <= c < d.len() && #[trigger] f0[a] == d[c];
                        assert(d[c] == ps[c]);
                    } else {
                        assert(f[a] == f0[a] && f[b] == f0[b]);
                    }
                }
            }
        } else {
            assert(ps.filter(keep) == f0);
            if distinct_paths(ps) {
                assert(distinct_paths(d));
            }
            if distinct_ports(ps) {
                assert(distinct_ports(d));
            }
        }
    }
}

} // verus!
