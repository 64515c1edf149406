//! Discovering development servers: reading the listener table that
//! `lsof -iTCP -sTCP:LISTEN -nP -Fpcn` prints, the process listings, and
//! grouping the servers by project.
use vstd::prelude::*;
use crate::detect::ProjectInfo;
use crate::paths::{file_name, parent, path_file_name, path_parent};
use crate::text::{
    chars_of, contains, same_text, contains_seq, ends_with, ends_with_seq, find_first, first_occurrence,
    lemma_first_occurrence, lowercase, opt_view, same_chars, split_words, string_from_chars,
    sub_chars, to_lowercase, views, words_of, lines_of, split_lines, parse_unsigned,
    parse_unsigned_seq, decode_utf8_lossy, utf8_lossy, trim, trim_seq,
};

verus! {

/// A development server as the dashboard shows it.
#[derive(Clone, Debug, PartialEq, Eq)]
pub struct DevServer {
    pub pid: u32,
    pub port: u16,
    pub command: String,
    pub cwd: Option<String>,
    pub project_name: Option<String>,
    pub project_type: Option<String>,
    /// The other servers of the same project (front end and back end).
    pub related_ports: Vec<RelatedPort>,
}

/// Another server of the same project.
#[derive(Clone, Debug, PartialEq, Eq)]
pub struct RelatedPort {
    pub port: u16,
    /// `frontend`, `backend` or `other`.
    pub role: String,
}

/// What a development server shows, as values.
pub ghost struct DevServerView {
    pub pid: u32,
    pub port: u16,
    pub command: Seq<char>,
    pub cwd: Option<Seq<char>>,
    pub project_name: Option<Seq<char>>,
    pub project_type: Option<Seq<char>>,
    pub related_ports: Seq<(u16, Seq<char>)>,
}

impl View for RelatedPort {
    type V = (u16, Seq<char>);

    open spec fn view(&self) -> (u16, Seq<char>) {
        (self.port, self.role@)
    }
}

impl View for DevServer {
    type V = DevServerView;

    open spec fn view(&self) -> DevServerView {
        DevServerView {
            pid: self.pid,
            port: self.port,
            command: self.command@,
            cwd: opt_view(self.cwd),
            project_name: opt_view(self.project_name),
            project_type: opt_view(self.project_type),
            related_ports: self.related_ports@.map_values(|r: RelatedPort| r@),
        }
    }
}

/// The views of development servers.
pub open spec fn server_views(v: Seq<DevServer>) -> Seq<DevServerView> {
    v.map_values(|d: DevServer| d@)
}

/// One listening server as the listener table reports it.
#[derive(Clone, Debug, PartialEq, Eq)]
pub struct ListenEntry {
    pub pid: u32,
    pub port: u16,
    pub command: String,
}

/// A listening server together with what its process tells about it.
#[derive(Clone, Debug, PartialEq, Eq)]
pub struct RawServer {
    pub pid: u32,
    pub port: u16,
    pub command: String,
    pub full_command: String,
    pub project_dir: Option<String>,
}

impl View for ListenEntry {
    type V = (u32, u16, Seq<char>);

    open spec fn view(&self) -> (u32, u16, Seq<char>) {
        (self.pid, self.port, self.command@)
    }
}

/// The views of listener entries.
pub open spec fn entry_views(es: Seq<ListenEntry>) -> Seq<(u32, u16, Seq<char>)> {
    es.map_values(|e: ListenEntry| e@)
}

// ---------------------------------------------------------------------------
// Which processes count as development servers
// ---------------------------------------------------------------------------

/// A command (already lower-cased) names a development server process.
pub open spec fn is_dev_server_command(cmd: Seq<char>) -> bool {
    ||| contains_seq(cmd, "node"@)
    ||| contains_seq(cmd, "next"@)
    ||| contains_seq(cmd, "vite"@)
    ||| contains_seq(cmd, "python"@)
    ||| contains_seq(cmd, "ruby"@)
    ||| contains_seq(cmd, "php"@)
    ||| contains_seq(cmd, "go"@)
    ||| contains_seq(cmd, "java"@)
    ||| contains_seq(cmd, "deno"@)
    ||| contains_seq(cmd, "bun"@)
}

/// Whether the lower-cased command `cmd` names a development server process.
pub fn is_dev_server_process(cmd: &str) -> (r: bool)
    ensures
        r == is_dev_server_command(cmd@),
        r <==> exists|w: Seq<char>| is_dev_server_name(w) && #[trigger] contains_seq(cmd@, w),
{
    proof {
        law_dev_server_names(cmd@);
    }
    let c = chars_of(cmd);
    contains(&c, &chars_of("node")) || contains(&c, &chars_of("next")) || contains(
        &c,
        &chars_of("vite"),
    ) || contains(&c, &chars_of("python")) || contains(&c, &chars_of("ruby")) || contains(
        &c,
        &chars_of("php"),
    ) || contains(&c, &chars_of("go")) || contains(&c, &chars_of("java")) || contains(
        &c,
        &chars_of("deno"),
    ) || contains(&c, &chars_of("bun"))
}

/// One of the names by which a command is known as a development server:
/// node, next, vite, python, ruby, php, go, java, deno or bun.
pub open spec fn is_dev_server_name(w: Seq<char>) -> bool {
    ||| w == "node"@
    ||| w == "next"@
    ||| w == "vite"@
    ||| w == "python"@
    ||| w == "ruby"@
    ||| w == "php"@
    ||| w == "go"@
    ||| w == "java"@
    ||| w == "deno"@
    ||| w == "bun"@
}

/// A lower-cased command counts as a development server exactly when it
/// contains one of the names node, next, vite, python, ruby, php, go, java,
/// deno or bun.
pub proof fn law_dev_server_names(cmd: Seq<char>)
    ensures
        is_dev_server_command(cmd) <==> exists|w: Seq<char>|
            is_dev_server_name(w) && #[trigger] contains_seq(cmd, w),
{
    if is_dev_server_command(cmd) {
        if contains_seq(cmd, "node"@) {
            assert(is_dev_server_name("node"@));
        } else if contains_seq(cmd, "next"@) {
            assert(is_dev_server_name("next"@));
        } else if contains_seq(cmd, "vite"@) {
            assert(is_dev_server_name("vite"@));
        } else if contains_seq(cmd, "python"@) {
            assert(is_dev_server_name("python"@));
        } else if contains_seq(cmd, "ruby"@) {
            assert(is_dev_server_name("ruby"@));
        } else if contains_seq(cmd, "php"@) {
            assert(is_dev_server_name("php"@));
        } else if contains_seq(cmd, "go"@) {
            assert(is_dev_server_name("go"@));
        } else if contains_seq(cmd, "java"@) {
            assert(is_dev_server_name("java"@));
        } else if contains_seq(cmd, "deno"@) {
            assert(is_dev_server_name("deno"@));
        } else {
            assert(is_dev_server_name("bun"@));
        }
    }
}

/// In the listener table, a port line `n...:PORT` of a process not yet
/// listed, whose command (lower-cased) contains one of the development
/// server names, with a port in 3000..=9999, lists that process on that
/// port with its command; where the command contains none of those names,
/// the line lists nothing.
pub proof fn law_dev_server_listed(st: ListenScan, name: Seq<char>, port: nat)
    requires
        st.0 is Some,
        st.1 is Some,
        !has_pid(st.2, st.0.unwrap()),
        parse_unsigned_seq(after_last_colon(name), 65535) == Some(port),
        3000 <= port <= 9999,
    ensures
        (exists|w: Seq<char>|
            is_dev_server_name(w) && #[trigger] contains_seq(lowercase(st.1.unwrap()), w))
            ==> listen_step(st, seq!['n'] + name).2 == st.2.push(
            (st.0.unwrap(), port as u16, st.1.unwrap()),
        ),
        (forall|w: Seq<char>|
            is_dev_server_name(w) ==> !#[trigger] contains_seq(lowercase(st.1.unwrap()), w))
            ==> listen_step(st, seq!['n'] + name).2 == st.2,
{
    let line = seq!['n'] + name;
    assert(line.drop_first() =~= name);
    assert(line[0] == 'n');
    law_dev_server_names(lowercase(st.1.unwrap()));
}

// ---------------------------------------------------------------------------
// The project directory named in a command line
// ---------------------------------------------------------------------------

/// The project directory that one word of a command line names: an absolute
/// path into `node_modules` or `.next` names the directory above it.
pub open spec fn dir_from_word(w: Seq<char>) -> Option<Seq<char>> {
    if w.len() > 0 && w[0] == '/' {
        match first_occurrence(w, "/node_modules/"@) {
            Some(i) => Some(w.take(i)),
            None => match first_occurrence(w, "/.next/"@) {
                Some(i) => Some(w.take(i)),
                None => None,
            },
        }
    } else {
        None
    }
}

/// The directory named by the first word that names one.
pub open spec fn first_dir_in_words(ws: Seq<Seq<char>>) -> Option<Seq<char>>
    decreases ws.len(),
{
    if ws.len() == 0 {
        None
    } else {
        match first_dir_in_words(ws.drop_last()) {
            Some(d) => Some(d),
            None => dir_from_word(ws.last()),
        }
    }
}

/// The project directory that the command line `cmd` names.
pub open spec fn inferred_project_dir(cmd: Seq<char>) -> Option<Seq<char>> {
    first_dir_in_words(words_of(cmd))
}

fn dir_from_word_exec(w: &Vec<char>) -> (r: Option<Vec<char>>)
    ensures
        match r {
            Some(d) => dir_from_word(w@) == Some(d@),
            None => dir_from_word(w@) is None,
        },
{
    if w.len() == 0 || w[0] != '/' {
        return None;
    }
    match find_first(w, &chars_of("/node_modules/")) {
        Some(i) => {
            proof {
                lemma_first_occurrence(w@, "/node_modules/"@);
            }
            Some(sub_chars(w, 0, i))
        },
        None => match find_first(w, &chars_of("/.next/")) {
            Some(i) => {
                proof {
                    lemma_first_occurrence(w@, "/.next/"@);
                }
                Some(sub_chars(w, 0, i))
            },
            None => None,
        },
    }
}

/// The project directory that a command line names: the part before
/// `/node_modules/` (or else `/.next/`) of the first absolute path word that
/// holds one.
pub fn infer_project_dir_from_cmd(full_cmd: &str) -> (r: Option<String>)
    ensures
        opt_view(r) == inferred_project_dir(full_cmd@),
{
    let words = split_words(&chars_of(full_cmd));
    let mut k: usize = 0;
    while k < words.len()
        invariant
            k <= words.len(),
            views(words@) == words_of(full_cmd@),
            first_dir_in_words(views(words@).take(k as int)) is None,
        decreases words.len() - k,
    {
        assert(views(words@).take(k + 1).drop_last() =~= views(words@).take(k as int));
        match dir_from_word_exec(&words[k]) {
            Some(d) => {
                proof {
                    lemma_first_dir_prefix(views(words@), (k + 1) as int);
                }
                return Some(string_from_chars(&d));
            },
            None => {},
        }
        k = k + 1;
    }
    assert(views(words@).take(words.len() as int) =~= views(words@));
    None
}

/// Once a prefix of the words names a directory, so do all the words.
pub proof fn lemma_first_dir_prefix(ws: Seq<Seq<char>>, n: int)
    requires
        0 <= n <= ws.len(),
        first_dir_in_words(ws.take(n)) is Some,
    ensures
        first_dir_in_words(ws) == first_dir_in_words(ws.take(n)),
    decreases ws.len() - n,
{
    if n < ws.len() {
        assert(ws.take(n + 1).drop_last() =~= ws.take(n));
        lemma_first_dir_prefix(ws, n + 1);
    } else {
        assert(ws.take(n) =~= ws);
    }
}

// ---------------------------------------------------------------------------
// Project roots and service roles
// ---------------------------------------------------------------------------

/// A lower-cased directory name that marks a part of a larger project.
pub open spec fn is_project_subdir(leaf: Seq<char>) -> bool {
    ||| leaf == "frontend"@
    ||| leaf == "backend"@
    ||| leaf == "server"@
    ||| leaf == "client"@
    ||| leaf == "web"@
    ||| leaf == "app"@
    ||| leaf == "api"@
}

/// The project root of `dir` whose lower-cased last component is `leaf`
/// and whose parent is `parent`: the parent where `leaf` names a part such
/// as `frontend` or `backend`, else `dir` itself.
pub open spec fn root_choice(dir: Seq<char>, leaf: Seq<char>, parent: Option<Seq<char>>) -> Seq<char> {
    if is_project_subdir(leaf) && parent is Some {
        parent.unwrap()
    } else {
        dir
    }
}

/// The lower-cased last component of `dir` (empty where it has none).
pub open spec fn lowered_leaf(dir: Seq<char>) -> Seq<char> {
    match path_file_name(dir) {
        Some(n) => lowercase(n),
        None => Seq::empty(),
    }
}

/// The project root of `dir`: its parent where `dir` is a part such as
/// `frontend` or `backend`, else `dir` itself.
pub open spec fn normalized_root(dir: Seq<char>) -> Seq<char> {
    root_choice(dir, lowered_leaf(dir), path_parent(dir))
}

/// The project root of `dir` from its lower-cased last component `leaf` and
/// its parent `parent`.
pub fn root_from_parts(dir: &str, leaf: &str, parent: Option<String>) -> (r: String)
    ensures
        r@ == root_choice(dir@, leaf@, opt_view(parent)),
        is_part_name(leaf@) && parent is Some ==> r@ == parent.unwrap()@,
        !is_part_name(leaf@) || parent is None ==> r@ == dir@,
{
    let leaf = chars_of(leaf);
    let is_sub = same_chars(&leaf, &chars_of("frontend")) || same_chars(&leaf, &chars_of("backend"))
        || same_chars(&leaf, &chars_of("server")) || same_chars(&leaf, &chars_of("client"))
        || same_chars(&leaf, &chars_of("web")) || same_chars(&leaf, &chars_of("app"))
        || same_chars(&leaf, &chars_of("api"));
    if is_sub {
        match parent {
            Some(p) => {
                return p;
            },
            None => {},
        }
    }
    string_from_chars(&chars_of(dir))
}

/// The project root of `dir` (parts such as `frontend` map to their parent).
pub fn normalize_project_root(dir: &str) -> (r: String)
    ensures
        r@ == normalized_root(dir@),
        is_part_name(lowered_leaf(dir@)) && path_parent(dir@) is Some ==> r@ == path_parent(
            dir@,
        ).unwrap(),
        !is_part_name(lowered_leaf(dir@)) || path_parent(dir@) is None ==> r@ == dir@,
{
    let leaf = match file_name(dir) {
        Some(n) => to_lowercase(n.as_str()),
        None => string_from_chars(&Vec::new()),
    };
    assert(leaf@ == lowered_leaf(dir@));
    root_from_parts(dir, leaf.as_str(), parent(dir))
}

/// One of the directory names that mark a part of a larger project:
/// frontend, backend, server, client, web, app or api.
pub open spec fn is_part_name(w: Seq<char>) -> bool {
    ||| w == "frontend"@
    ||| w == "backend"@
    ||| w == "server"@
    ||| w == "client"@
    ||| w == "web"@
    ||| w == "app"@
    ||| w == "api"@
}

/// Given a directory's lower-cased last component and its parent, the
/// project root is the parent where that component is frontend, backend,
/// server, client, web, app or api and the parent exists; otherwise it is
/// the directory itself.
pub proof fn law_root_of_parts(dir: Seq<char>, leaf: Seq<char>, parent: Option<Seq<char>>)
    ensures
        is_part_name(leaf) && parent is Some ==> root_choice(dir, leaf, parent) == parent.unwrap(),
        !is_part_name(leaf) || parent is None ==> root_choice(dir, leaf, parent) == dir,
{
}

/// A directory whose lower-cased last component is frontend, backend,
/// server, client, web, app or api, and which has a parent, has that parent
/// as its project root; any other directory is its own project root.
pub proof fn law_project_root(dir: Seq<char>)
    ensures
        is_part_name(lowered_leaf(dir)) && path_parent(dir) is Some ==> normalized_root(dir)
            == path_parent(dir).unwrap(),
        !is_part_name(lowered_leaf(dir)) || path_parent(dir) is None ==> normalized_root(dir)
            == dir,
{
}

/// Two parts of one project (such as its `client` and its `server`
/// directories) have the same project root: their common parent.
pub proof fn law_parts_share_root(a: Seq<char>, b: Seq<char>)
    requires
        is_part_name(lowered_leaf(a)),
        is_part_name(lowered_leaf(b)),
        path_parent(a) is Some,
        path_parent(a) == path_parent(b),
    ensures
        normalized_root(a) == normalized_root(b),
        normalized_root(a) == path_parent(a).unwrap(),
{
}

/// The role of a server from its lower-cased command line and directory.
pub open spec fn role_of(cmd: Seq<char>, dir: Seq<char>) -> Seq<char> {
    if contains_seq(cmd, "next-server"@) || contains_seq(cmd, "vite"@) || contains_seq(
        cmd,
        "webpack"@,
    ) || contains_seq(cmd, "react-scripts"@) || ends_with_seq(dir, "/frontend"@)
        || ends_with_seq(dir, "/client"@) || ends_with_seq(dir, "/web"@) {
        "frontend"@
    } else if contains_seq(cmd, "uvicorn"@) || contains_seq(cmd, "gunicorn"@) || contains_seq(
        cmd,
        "flask"@,
    ) || contains_seq(cmd, "django"@) || contains_seq(cmd, "express"@) || contains_seq(
        cmd,
        "fastapi"@,
    ) || contains_seq(cmd, "nest"@) || ends_with_seq(dir, "/backend"@) || ends_with_seq(
        dir,
        "/server"@,
    ) || ends_with_seq(dir, "/api"@) {
        "backend"@
    } else {
        "other"@
    }
}

/// A tool whose name in a command line marks a front-end server:
/// next-server, vite, webpack or react-scripts.
pub open spec fn is_frontend_tool(w: Seq<char>) -> bool {
    ||| w == "next-server"@
    ||| w == "vite"@
    ||| w == "webpack"@
    ||| w == "react-scripts"@
}

/// A directory ending that marks a front end: /frontend, /client or /web.
pub open spec fn is_frontend_dir_end(w: Seq<char>) -> bool {
    ||| w == "/frontend"@
    ||| w == "/client"@
    ||| w == "/web"@
}

/// A tool whose name in a command line marks a back-end server: uvicorn,
/// gunicorn, flask, django, express, fastapi or nest.
pub open spec fn is_backend_tool(w: Seq<char>) -> bool {
    ||| w == "uvicorn"@
    ||| w == "gunicorn"@
    ||| w == "flask"@
    ||| w == "django"@
    ||| w == "express"@
    ||| w == "fastapi"@
    ||| w == "nest"@
}

/// A directory ending that marks a back end: /backend, /server or /api.
pub open spec fn is_backend_dir_end(w: Seq<char>) -> bool {
    ||| w == "/backend"@
    ||| w == "/server"@
    ||| w == "/api"@
}

/// The command line or directory marks a front end.
pub open spec fn marks_frontend(cmd: Seq<char>, dir: Seq<char>) -> bool {
    ||| exists|w: Seq<char>| is_frontend_tool(w) && #[trigger] contains_seq(cmd, w)
    ||| exists|w: Seq<char>| is_frontend_dir_end(w) && #[trigger] ends_with_seq(dir, w)
}

/// The command line or directory marks a back end.
pub open spec fn marks_backend(cmd: Seq<char>, dir: Seq<char>) -> bool {
    ||| exists|w: Seq<char>| is_backend_tool(w) && #[trigger] contains_seq(cmd, w)
    ||| exists|w: Seq<char>| is_backend_dir_end(w) && #[trigger] ends_with_seq(dir, w)
}

/// A server whose lower-cased command line names next-server, vite, webpack
/// or react-scripts, or whose directory ends in /frontend, /client or /web,
/// is a front end; failing that, one that names uvicorn, gunicorn, flask,
/// django, express, fastapi or nest, or whose directory ends in /backend,
/// /server or /api, is a back end; any other is `other`.
pub proof fn law_role(cmd: Seq<char>, dir: Seq<char>)
    ensures
        marks_frontend(cmd, dir) ==> role_of(cmd, dir) == "frontend"@,
        !marks_frontend(cmd, dir) && marks_backend(cmd, dir) ==> role_of(cmd, dir) == "backend"@,
        !marks_frontend(cmd, dir) && !marks_backend(cmd, dir) ==> role_of(cmd, dir) == "other"@,
{
}

/// The role of a server: `frontend`, `backend` or `other`.
pub open spec fn service_role(s: RawServer) -> Seq<char> {
    role_of(
        lowercase(s.full_command@),
        lowercase(
            match s.project_dir {
                Some(d) => d@,
                None => ""@,
            },
        ),
    )
}

/// Whether `s` contains `p` (a literal).
fn has(s: &Vec<char>, p: &str) -> (r: bool)
    ensures
        r == contains_seq(s@, p@),
{
    contains(s, &chars_of(p))
}

/// Whether `s` ends with `p` (a literal).
fn ends(s: &Vec<char>, p: &str) -> (r: bool)
    ensures
        r == ends_with_seq(s@, p@),
{
    ends_with(s, &chars_of(p))
}

/// The role of a server: `frontend` where its command runs a front-end tool
/// or it lives in a front-end directory, `backend` likewise, else `other`.
pub fn detect_service_role(server: &RawServer) -> (r: String)
    ensures
        r@ == service_role(*server),
{
    let cmd = to_lowercase(server.full_command.as_str());
    let dir = match &server.project_dir {
        Some(d) => to_lowercase(d.as_str()),
        None => to_lowercase(""),
    };
    role_from_lowered(cmd.as_str(), dir.as_str())
}

/// The role of a server from its lower-cased command line `cmd` and
/// lower-cased project directory `dir`.
pub fn role_from_lowered(cmd: &str, dir: &str) -> (r: String)
    ensures
        r@ == role_of(cmd@, dir@),
        marks_frontend(cmd@, dir@) ==> r@ == "frontend"@,
        !marks_frontend(cmd@, dir@) && marks_backend(cmd@, dir@) ==> r@ == "backend"@,
        !marks_frontend(cmd@, dir@) && !marks_backend(cmd@, dir@) ==> r@ == "other"@,
{
    proof {
        law_role(cmd@, dir@);
    }
    let cmd = chars_of(cmd);
    let dir = chars_of(dir);
    if has(&cmd, "next-server") || has(&cmd, "vite") || has(&cmd, "webpack") || has(
        &cmd,
        "react-scripts",
    ) || ends(&dir, "/frontend") || ends(&dir, "/client") || ends(&dir, "/web") {
        return string_from_chars(&chars_of("frontend"));
    }
    if has(&cmd, "uvicorn") || has(&cmd, "gunicorn") || has(&cmd, "flask") || has(&cmd, "django")
        || has(&cmd, "express") || has(&cmd, "fastapi") || has(&cmd, "nest") || ends(
        &dir,
        "/backend",
    ) || ends(&dir, "/server") || ends(&dir, "/api") {
        return string_from_chars(&chars_of("backend"));
    }
    string_from_chars(&chars_of("other"))
}


// ---------------------------------------------------------------------------
// The listener table
// ---------------------------------------------------------------------------

/// The text after the last `:` of `s` (all of `s` where it has none).
pub open spec fn after_last_colon(s: Seq<char>) -> Seq<char>
    decreases s.len(),
{
    if s.len() == 0 {
        s
    } else if s.last() == ':' {
        Seq::empty()
    } else {
        after_last_colon(s.drop_last()).push(s.last())
    }
}

/// A number read as a `u32`.
pub open spec fn as_u32(v: Option<nat>) -> Option<u32> {
    match v {
        Some(n) => Some(n as u32),
        None => None,
    }
}

/// Some entry of `es` has the process id `pid`.
pub open spec fn has_pid(es: Seq<(u32, u16, Seq<char>)>, pid: u32) -> bool {
    exists|i: int| 0 <= i < es.len() && es[i].0 == pid
}

/// Reading the listener table: the current process id, the current command,
/// and the servers accepted so far.
pub type ListenScan = (Option<u32>, Option<Seq<char>>, Seq<(u32, u16, Seq<char>)>);

/// The port line `name` (text after the `n`) of process `pid` running `cmd`
/// makes a server: its port is 3000..=9999, its command a development
/// server, and its process not yet listed.
pub open spec fn accepts_listener(
    es: Seq<(u32, u16, Seq<char>)>,
    pid: u32,
    cmd: Seq<char>,
    name: Seq<char>,
) -> Option<u16> {
    match parse_unsigned_seq(after_last_colon(name), 65535) {
        Some(port) => if 3000 <= port <= 9999 && is_dev_server_command(lowercase(cmd)) && !has_pid(
            es,
            pid,
        ) {
            Some(port as u16)
        } else {
            None
        },
        None => None,
    }
}

/// One line of the listener table: `p` starts a process, `c` names its
/// command, `n` names an address it listens on.
pub open spec fn listen_step(st: ListenScan, line: Seq<char>) -> ListenScan {
    if line.len() > 0 && line[0] == 'p' {
        (as_u32(parse_unsigned_seq(line.drop_first(), 0xffff_ffff)), None, st.2)
    } else if line.len() > 0 && line[0] == 'c' {
        (st.0, Some(line.drop_first()), st.2)
    } else if line.len() > 0 && line[0] == 'n' {
        match (st.0, st.1) {
            (Some(pid), Some(cmd)) => match accepts_listener(st.2, pid, cmd, line.drop_first()) {
                Some(port) => (st.0, st.1, st.2.push((pid, port, cmd))),
                None => st,
            },
            _ => st,
        }
    } else {
        st
    }
}

/// The listener table read line by line.
pub open spec fn listen_scan(lines: Seq<Seq<char>>) -> ListenScan
    decreases lines.len(),
{
    if lines.len() == 0 {
        (None, None, Seq::empty())
    } else {
        listen_step(listen_scan(lines.drop_last()), lines.last())
    }
}

/// The development servers that the listener table `text` lists.
pub open spec fn listeners_of(text: Seq<char>) -> Seq<(u32, u16, Seq<char>)> {
    listen_scan(lines_of(text)).2
}

/// The servers of a scan list each process once, on a port in 3000..=9999,
/// with a development-server command.
pub open spec fn listeners_well_formed(es: Seq<(u32, u16, Seq<char>)>) -> bool {
    &&& forall|i: int| 0 <= i < es.len() ==> 3000 <= #[trigger] es[i].1 <= 9999
    &&& forall|i: int| 0 <= i < es.len() ==> is_dev_server_command(lowercase(#[trigger] es[i].2))
    &&& forall|i: int, j: int| 0 <= i < j < es.len() ==> #[trigger] es[i].0 != #[trigger] es[j].0
}

/// Every stage of reading the listener table keeps its servers well formed.
pub proof fn lemma_listen_scan_well_formed(lines: Seq<Seq<char>>)
    ensures
        listeners_well_formed(listen_scan(lines).2),
    decreases lines.len(),
{
    if lines.len() > 0 {
        lemma_listen_scan_well_formed(lines.drop_last());
        let st = listen_scan(lines.drop_last());
        let es = st.2;
        let next = listen_step(st, lines.last());
        if next.2 != es {
            let line = lines.last();
            let pid = st.0.unwrap();
            let cmd = st.1.unwrap();
            let port = accepts_listener(es, pid, cmd, line.drop_first()).unwrap();
            assert(next.2 == es.push((pid, port, cmd)));
            assert forall|i: int, j: int| 0 <= i < j < next.2.len() implies #[trigger] next.2[i].0
                != #[trigger] next.2[j].0 by {
                if j == es.len() {
                    assert(!has_pid(es, pid));
                    assert(es[i].0 != pid);
                }
            }
        }
    }
}

/// Whether some entry of `es` has the process id `pid`.
fn listed(es: &Vec<ListenEntry>, pid: u32) -> (r: bool)
    ensures
        r == has_pid(entry_views(es@), pid),
{
    let mut i: usize = 0;
    while i < es.len()
        invariant
            i <= es.len(),
            forall|k: int| 0 <= k < i ==> es@[k].pid != pid,
        decreases es.len() - i,
    {
        if es[i].pid == pid {
            assert(entry_views(es@)[i as int].0 == pid);
            return true;
        }
        i = i + 1;
    }
    assert forall|k: int| 0 <= k < entry_views(es@).len() implies entry_views(es@)[k].0 != pid by {
        assert(entry_views(es@)[k].0 == es@[k].pid);
    }
    false
}

/// The text after the last `:` of `s`.
fn after_colon(s: &Vec<char>) -> (r: Vec<char>)
    ensures
        r@ == after_last_colon(s@),
{
    let mut i: usize = s.len();
    while i > 0 && s[i - 1] != ':'
        invariant
            i <= s.len(),
            forall|k: int| i <= k < s.len() ==> s@[k] != ':',
        decreases i,
    {
        i = i - 1;
    }
    proof {
        lemma_after_last_colon(s@, i as int);
    }
    sub_chars(s, i, s.len())
}

/// Where the characters from `i` on hold no `:` and `i` starts `s` or follows
/// a `:`, the text after the last `:` is what follows `i`.
pub proof fn lemma_after_last_colon(s: Seq<char>, i: int)
    requires
        0 <= i <= s.len(),
        forall|k: int| i <= k < s.len() ==> s[k] != ':',
        i == 0 || s[i - 1] == ':',
    ensures
        after_last_colon(s) == s.subrange(i, s.len() as int),
    decreases s.len(),
{
    if s.len() == 0 {
        assert(s.subrange(0, 0) =~= s);
    } else if i == s.len() {
        assert(s.subrange(i, s.len() as int) =~= Seq::<char>::empty());
    } else {
        lemma_after_last_colon(s.drop_last(), i);
        assert(s.subrange(i, s.len() as int) =~= s.drop_last().subrange(i, s.len() - 1).push(
            s.last(),
        ));
    }
}

/// The development servers that the listener table `stdout` lists
/// (`lsof -iTCP -sTCP:LISTEN -nP -Fpcn`): for each process, the first port
/// in 3000..=9999, where the process command names a development server.
pub fn parse_lsof_listeners(stdout: &[u8]) -> (r: Vec<ListenEntry>)
    ensures
        entry_views(r@) == listeners_of(utf8_lossy(stdout@)),
        listeners_well_formed(entry_views(r@)),
{
    let text = decode_utf8_lossy(stdout);
    parse_lsof_text(text.as_str())
}

/// The development servers that the decoded listener table `text` lists.
pub fn parse_lsof_text(text: &str) -> (r: Vec<ListenEntry>)
    ensures
        entry_views(r@) == listeners_of(text@),
        listeners_well_formed(entry_views(r@)),
{
    let lines = split_lines(&chars_of(text));
    let ghost ls = views(lines@);
    let mut cur_pid: Option<u32> = None;
    let mut cur_cmd: Option<Vec<char>> = None;
    let mut entries: Vec<ListenEntry> = Vec::new();
    let mut k: usize = 0;
    while k < lines.len()
        invariant
            k <= lines.len(),
            ls == views(lines@),
            ls == lines_of(text@),
            listen_scan(ls.take(k as int)) == (
                cur_pid,
                match cur_cmd {
                    Some(c) => Some(c@),
                    None => None,
                },
                entry_views(entries@),
            ),
        decreases lines.len() - k,
    {
        assert(ls.take(k + 1).drop_last() =~= ls.take(k as int));
        let line = &lines[k];
        assert(line@ == ls[k as int]);
        if line.len() > 0 && line[0] == 'p' {
            let rest = sub_chars(line, 1, line.len());
            assert(rest@ =~= line@.drop_first());
            cur_pid = parse_unsigned(&rest, 0xffff_ffff);
            cur_cmd = None;
        } else if line.len() > 0 && line[0] == 'c' {
            let rest = sub_chars(line, 1, line.len());
            assert(rest@ =~= line@.drop_first());
            cur_cmd = Some(rest);
        } else if line.len() > 0 && line[0] == 'n' {
            match (cur_pid, &cur_cmd) {
                (Some(pid), Some(cmd)) => {
                    let rest = sub_chars(line, 1, line.len());
                    assert(rest@ =~= line@.drop_first());
                    let port_text = after_colon(&rest);
                    match parse_unsigned(&port_text, 65535) {
                        Some(port) => {
                            let cmd_text = string_from_chars(cmd);
                            if 3000 <= port && port <= 9999 && is_dev_server_process(
                                to_lowercase(cmd_text.as_str()).as_str(),
                            ) && !listed(&entries, pid) {
                                let ghost before = entry_views(entries@);
                                entries.push(
                                    ListenEntry { pid, port: port as u16, command: cmd_text },
                                );
                                assert(entry_views(entries@) =~= before.push(
                                    (pid, port as u16, cmd@),
                                ));
                            }
                        },
                        None => {},
                    }
                },
                _ => {},
            }
        }
        k = k + 1;
    }
    assert(ls.take(lines.len() as int) =~= ls);
    proof {
        lemma_listen_scan_well_formed(ls);
    }
    entries
}


// ---------------------------------------------------------------------------
// What a process tells about itself
// ---------------------------------------------------------------------------

/// The working directory in the lines of `lsof -a -p PID -d cwd -Fn`: the
/// first `n` line whose path is not `/`.
pub open spec fn cwd_in_lines(ls: Seq<Seq<char>>) -> Option<Seq<char>>
    decreases ls.len(),
{
    if ls.len() == 0 {
        None
    } else {
        match cwd_in_lines(ls.drop_last()) {
            Some(p) => Some(p),
            None => {
                let l = ls.last();
                if l.len() > 0 && l[0] == 'n' && l.drop_first() != "/"@ {
                    Some(l.drop_first())
                } else {
                    None
                }
            },
        }
    }
}

/// The working directory that a process listing reports, if the listing ran.
pub open spec fn cwd_of(listing: Option<Seq<u8>>) -> Option<Seq<char>> {
    match listing {
        Some(b) => cwd_in_lines(lines_of(utf8_lossy(b))),
        None => None,
    }
}

/// Once a prefix of the lines names a directory, so do all the lines.
pub proof fn lemma_cwd_prefix(ls: Seq<Seq<char>>, n: int)
    requires
        0 <= n <= ls.len(),
        cwd_in_lines(ls.take(n)) is Some,
    ensures
        cwd_in_lines(ls) == cwd_in_lines(ls.take(n)),
    decreases ls.len() - n,
{
    if n < ls.len() {
        assert(ls.take(n + 1).drop_last() =~= ls.take(n));
        lemma_cwd_prefix(ls, n + 1);
    } else {
        assert(ls.take(n) =~= ls);
    }
}

/// The working directory that the output of `lsof -a -p PID -d cwd -Fn`
/// names (`None` where the listing could not be run).
pub fn parse_cwd_listing(stdout: &Option<Vec<u8>>) -> (r: Option<String>)
    ensures
        opt_view(r) == cwd_of(
            match stdout {
                Some(b) => Some(b@),
                None => None,
            },
        ),
{
    match stdout {
        Some(bytes) => {
            let text = decode_utf8_lossy(bytes.as_slice());
            parse_cwd_text(text.as_str())
        },
        None => None,
    }
}

/// The working directory that the decoded listing `text` of
/// `lsof -a -p PID -d cwd -Fn` names.
pub fn parse_cwd_text(text: &str) -> (r: Option<String>)
    ensures
        opt_view(r) == cwd_in_lines(lines_of(text@)),
{
    let lines = split_lines(&chars_of(text));
    let ghost ls = views(lines@);
    let root = chars_of("/");
    let mut k: usize = 0;
    while k < lines.len()
        invariant
            k <= lines.len(),
            ls == views(lines@),
            ls == lines_of(text@),
            root@ == "/"@,
            cwd_in_lines(ls.take(k as int)) is None,
        decreases lines.len() - k,
    {
        assert(ls.take(k + 1).drop_last() =~= ls.take(k as int));
        let line = &lines[k];
        assert(line@ == ls[k as int]);
        if line.len() > 0 && line[0] == 'n' {
            let rest = sub_chars(line, 1, line.len());
            assert(rest@ =~= line@.drop_first());
            if !same_chars(&rest, &root) {
                assert(cwd_in_lines(ls.take(k + 1)) == Some(rest@));
                proof {
                    lemma_cwd_prefix(ls, k + 1);
                }
                return Some(string_from_chars(&rest));
            }
        }
        k = k + 1;
    }
    assert(ls.take(lines.len() as int) =~= ls);
    None
}

/// The command line that `ps -p PID -ww -o args=` printed, trimmed (empty
/// where `ps` could not be run).
pub open spec fn command_line_of(output: Option<Seq<u8>>) -> Seq<char> {
    match output {
        Some(b) => trim_seq(utf8_lossy(b)),
        None => Seq::empty(),
    }
}

/// The full command line from the output of `ps -p PID -ww -o args=`.
pub fn full_command_from_ps(stdout: &Option<Vec<u8>>) -> (r: String)
    ensures
        r@ == command_line_of(
            match stdout {
                Some(b) => Some(b@),
                None => None,
            },
        ),
{
    match stdout {
        Some(b) => {
            let text = decode_utf8_lossy(b.as_slice());
            command_line_from_text(text.as_str())
        },
        None => string_from_chars(&Vec::new()),
    }
}

/// The full command line from the decoded output `text` of `ps`: trimmed.
pub fn command_line_from_text(text: &str) -> (r: String)
    ensures
        r@ == trim_seq(text@),
{
    string_from_chars(&trim(&chars_of(text)))
}

/// The project directory of a server: its working directory unless that is
/// missing or `/`, else the directory its command line names.
pub open spec fn project_dir_of(cwd: Option<Seq<char>>, full_cmd: Seq<char>) -> Option<Seq<char>> {
    match cwd {
        Some(d) => if d != "/"@ {
            Some(d)
        } else {
            inferred_project_dir(full_cmd)
        },
        None => inferred_project_dir(full_cmd),
    }
}

/// The project directory of a server from its working directory and command line.
pub fn resolve_project_dir(cwd: &Option<String>, full_cmd: &str) -> (r: Option<String>)
    ensures
        opt_view(r) == project_dir_of(opt_view(*cwd), full_cmd@),
{
    match cwd {
        Some(d) => {
            if !same_text(d.as_str(), "/") {
                return Some(d.clone());
            }
        },
        None => {},
    }
    infer_project_dir_from_cmd(full_cmd)
}

/// A listener together with what `lsof` and `ps` reported about its process.
pub open spec fn raw_server_matches(
    r: RawServer,
    e: ListenEntry,
    cwd_listing: Option<Seq<u8>>,
    ps_output: Option<Seq<u8>>,
) -> bool {
    &&& r.pid == e.pid
    &&& r.port == e.port
    &&& r.command@ == e.command@
    &&& r.full_command@ == command_line_of(ps_output)
    &&& opt_view(r.project_dir) == project_dir_of(cwd_of(cwd_listing), command_line_of(ps_output))
}

/// The bytes of an optional output.
pub open spec fn opt_bytes(o: Option<Vec<u8>>) -> Option<Seq<u8>> {
    match o {
        Some(b) => Some(b@),
        None => None,
    }
}

/// A listener described by the working-directory listing and the command
/// line of its process (each `None` where its command could not be run).
pub fn describe_listener(
    entry: &ListenEntry,
    cwd_listing: &Option<Vec<u8>>,
    ps_output: &Option<Vec<u8>>,
) -> (r: RawServer)
    ensures
        raw_server_matches(r, *entry, opt_bytes(*cwd_listing), opt_bytes(*ps_output)),
{
    let cwd = parse_cwd_listing(cwd_listing);
    let full_command = full_command_from_ps(ps_output);
    let project_dir = resolve_project_dir(&cwd, full_command.as_str());
    RawServer {
        pid: entry.pid,
        port: entry.port,
        command: entry.command.clone(),
        full_command,
        project_dir,
    }
}


// ---------------------------------------------------------------------------
// Grouping servers by project
// ---------------------------------------------------------------------------

/// The servers whose project directories share a root.
#[derive(Clone, Debug, PartialEq, Eq)]
pub struct ServerGroup {
    pub root: String,
    /// Indices of the servers, in the order they were listed.
    pub members: Vec<usize>,
}

/// Servers grouped by project root, and those without a project directory.
#[derive(Clone, Debug, PartialEq, Eq)]
pub struct ServerGrouping {
    pub groups: Vec<ServerGroup>,
    pub ungrouped: Vec<usize>,
}

impl View for ServerGroup {
    type V = (Seq<char>, Seq<usize>);

    open spec fn view(&self) -> (Seq<char>, Seq<usize>) {
        (self.root@, self.members@)
    }
}

/// The views of groups.
pub open spec fn group_views(gs: Seq<ServerGroup>) -> Seq<(Seq<char>, Seq<usize>)> {
    gs.map_values(|g: ServerGroup| g@)
}

/// The first group at or after `k` whose root is `root`.
pub open spec fn group_index_from(gs: Seq<(Seq<char>, Seq<usize>)>, root: Seq<char>, k: int) -> Option<
    int,
>
    decreases gs.len() - k,
{
    if k < 0 || k >= gs.len() {
        None
    } else if gs[k].0 == root {
        Some(k)
    } else {
        group_index_from(gs, root, k + 1)
    }
}

/// Grouping the servers `rs` in order: each server with a project directory
/// joins the group of its root (opening it where there is none); the others
/// stay ungrouped.
pub open spec fn group_scan(rs: Seq<RawServer>) -> (Seq<(Seq<char>, Seq<usize>)>, Seq<usize>)
    decreases rs.len(),
{
    if rs.len() == 0 {
        (Seq::empty(), Seq::empty())
    } else {
        let prev = group_scan(rs.drop_last());
        let i = (rs.len() - 1) as usize;
        match rs.last().project_dir {
            Some(d) => {
                let root = normalized_root(d@);
                match group_index_from(prev.0, root, 0) {
                    Some(g) => (prev.0.update(g, (root, prev.0[g].1.push(i))), prev.1),
                    None => (prev.0.push((root, seq![i])), prev.1),
                }
            },
            None => (prev.0, prev.1.push(i)),
        }
    }
}

/// A grouping of `n` servers: every group has members, and every index is
/// below `n`.
pub open spec fn grouping_fits(n: nat, gs: Seq<(Seq<char>, Seq<usize>)>, ung: Seq<usize>) -> bool {
    &&& forall|g: int| 0 <= g < gs.len() ==> #[trigger] gs[g].1.len() > 0
    &&& forall|g: int, j: int|
        0 <= g < gs.len() && 0 <= j < gs[g].1.len() ==> #[trigger] gs[g].1[j] < n
    &&& forall|j: int| 0 <= j < ung.len() ==> #[trigger] ung[j] < n
}

/// Every stage of grouping fits the servers seen so far, and the servers
/// left ungrouped have no project directory.
pub proof fn lemma_group_scan_fits(rs: Seq<RawServer>)
    requires
        rs.len() <= usize::MAX,
    ensures
        grouping_fits(rs.len(), group_scan(rs).0, group_scan(rs).1),
        forall|j: int|
            0 <= j < group_scan(rs).1.len() ==> rs[#[trigger] group_scan(rs).1[j] as int].project_dir
                is None,
    decreases rs.len(),
{
    if rs.len() > 0 {
        let prev = group_scan(rs.drop_last());
        lemma_group_scan_fits(rs.drop_last());
        lemma_group_index_from(prev.0, match rs.last().project_dir {
            Some(d) => normalized_root(d@),
            None => Seq::empty(),
        }, 0);
        let now = group_scan(rs);
        let i = (rs.len() - 1) as usize;
        assert forall|g: int| 0 <= g < now.0.len() implies #[trigger] now.0[g].1.len() > 0 by {
            if g < prev.0.len() {
                assert(prev.0[g].1.len() > 0);
            }
        }
        assert forall|g: int, j: int| 0 <= g < now.0.len() && 0 <= j < now.0[g].1.len() implies
            #[trigger] now.0[g].1[j] < rs.len() by {
            if g < prev.0.len() && j < prev.0[g].1.len() {
                assert(prev.0[g].1[j] < rs.len() - 1);
            }
        }
        assert forall|j: int| 0 <= j < now.1.len() implies #[trigger] now.1[j] < rs.len() by {
            if j < prev.1.len() {
                assert(prev.1[j] < rs.len() - 1);
            }
        }
        assert forall|j: int| 0 <= j < now.1.len() implies rs[#[trigger] now.1[j] as int].project_dir
            is None by {
            if j < prev.1.len() {
                assert(now.1[j] == prev.1[j]);
                assert(rs[prev.1[j] as int] == rs.drop_last()[prev.1[j] as int]);
            }
        }
    }
}

/// `group_index_from` finds a group with the root, in range.
pub proof fn lemma_group_index_from(gs: Seq<(Seq<char>, Seq<usize>)>, root: Seq<char>, k: int)
    requires
        0 <= k,
    ensures
        group_index_from(gs, root, k) matches Some(g) ==> k <= g < gs.len() && gs[g].0 == root,
        group_index_from(gs, root, k) is None ==> forall|g: int| k <= g < gs.len() ==> gs[g].0 != root,
    decreases gs.len() - k,
{
    if k < gs.len() && gs[k].0 != root {
        lemma_group_index_from(gs, root, k + 1);
    }
}

/// The server's project directory has the root `root`.
pub open spec fn has_root(s: RawServer, root: Seq<char>) -> bool {
    s.project_dir matches Some(d) && normalized_root(d@) == root
}

/// Grouping by project: every member of a group has a project directory
/// with the group's root; no two groups share a root; every server with a
/// project directory is in some group and every server without one is
/// ungrouped; and the members of a group, like the ungrouped servers, keep
/// the order in which the servers were listed (so none appears twice).
pub proof fn law_grouping_by_root(rs: Seq<RawServer>)
    requires
        rs.len() <= usize::MAX,
    ensures
        forall|g: int, j: int|
            0 <= g < group_scan(rs).0.len() && 0 <= j < group_scan(rs).0[g].1.len() ==> has_root(
                rs[#[trigger] group_scan(rs).0[g].1[j] as int],
                group_scan(rs).0[g].0,
            ),
        forall|g: int, h: int|
            0 <= g < h < group_scan(rs).0.len() ==> #[trigger] group_scan(rs).0[g].0
                != #[trigger] group_scan(rs).0[h].0,
        forall|i: int|
            0 <= i < rs.len() && (#[trigger] rs[i]).project_dir is Some ==> exists|g: int, j: int|
                0 <= g < group_scan(rs).0.len() && 0 <= j < group_scan(rs).0[g].1.len()
                    && group_scan(rs).0[g].1[j] == i,
        forall|i: int|
            0 <= i < rs.len() && (#[trigger] rs[i]).project_dir is None ==> group_scan(
                rs,
            ).1.contains(i as usize),
        forall|g: int, a: int, b: int|
            0 <= g < group_scan(rs).0.len() && 0 <= a < b < group_scan(rs).0[g].1.len()
                ==> #[trigger] group_scan(rs).0[g].1[a] < #[trigger] group_scan(rs).0[g].1[b],
        forall|a: int, b: int|
            0 <= a < b < group_scan(rs).1.len() ==> #[trigger] group_scan(rs).1[a]
                < #[trigger] group_scan(rs).1[b],
    decreases rs.len(),
{
    lemma_group_scan_fits(rs);
    if rs.len() > 0 {
        let d = rs.drop_last();
        law_grouping_by_root(d);
        lemma_group_scan_fits(d);
        let prev = group_scan(d);
        let now = group_scan(rs);
        let n = rs.len() - 1;
        let last = rs.last();
        assert forall|k: int| 0 <= k < n implies rs[k] == d[k] by {}
        match last.project_dir {
            Some(dir) => {
                let root = normalized_root(dir@);
                lemma_group_index_from(prev.0, root, 0);
                match group_index_from(prev.0, root, 0) {
                    Some(gi) => {
                        assert(now.0 == prev.0.update(gi, (root, prev.0[gi].1.push(n as usize))));
                        assert forall|g: int, j: int|
                            0 <= g < now.0.len() && 0 <= j < now.0[g].1.len() implies has_root(
                            rs[#[trigger] now.0[g].1[j] as int],
                            now.0[g].0,
                        ) by {
                            if g != gi || j < prev.0[g].1.len() {
                                assert(now.0[g].1[j] == prev.0[g].1[j]);
                                assert(prev.0[g].1[j] < n);
                            }
                        }
                        assert forall|g: int, h: int| 0 <= g < h < now.0.len() implies #[trigger] now.0[g].0
                            != #[trigger] now.0[h].0 by {
                            assert(now.0[g].0 == prev.0[g].0 && now.0[h].0 == prev.0[h].0);
                        }
                        assert forall|i: int| 0 <= i < rs.len() && (#[trigger] rs[i]).project_dir is Some implies exists|g: int, j: int|
                            0 <= g < now.0.len() && 0 <= j < now.0[g].1.len() && now.0[g].1[j] == i by {
                            if i < n {
                                assert(d[i] == rs[i]);
                                let (g, j) = choose|g: int, j: int| 0 <= g < prev.0.len() && 0 <= j < prev.0[g].1.len() && prev.0[g].1[j] == i;
                                assert(now.0[g].1[j] == i);
                            } else {
                                assert(now.0[gi].1[prev.0[gi].1.len() as int] == i);
                            }
                        }
                        assert forall|i: int| 0 <= i < rs.len() && (#[trigger] rs[i]).project_dir is None implies now.1.contains(i as usize) by {
                            assert(i < n);
                            assert(d[i] == rs[i]);
                        }
                        assert forall|g: int, a: int, b: int|
                            0 <= g < now.0.len() && 0 <= a < b < now.0[g].1.len() implies #[trigger] now.0[g].1[a] < #[trigger] now.0[g].1[b] by {
                            if g == gi && b == prev.0[g].1.len() {
                                assert(prev.0[g].1[a] < n);
                                assert(now.0[g].1[a] == prev.0[g].1[a]);
                            } else {
                                assert(now.0[g].1[a] == prev.0[g].1[a]);
                                assert(now.0[g].1[b] == prev.0[g].1[b]);
                            }
                        }
                    },
                    None => {
                        assert(now.0 == prev.0.push((root, seq![n as usize])));
                        assert forall|g: int, j: int|
                            0 <= g < now.0.len() && 0 <= j < now.0[g].1.len() implies has_root(
                            rs[#[trigger] now.0[g].1[j] as int],
                            now.0[g].0,
                        ) by {
                            if g < prev.0.len() {
                                assert(now.0[g] == prev.0[g]);
                                assert(prev.0[g].1[j] < n);
                            }
                        }
                        assert forall|g: int, h: int| 0 <= g < h < now.0.len() implies #[trigger] now.0[g].0
                            != #[trigger] now.0[h].0 by {
                            assert(now.0[g] == prev.0[g]);
                        }
                        assert forall|i: int| 0 <= i < rs.len() && (#[trigger] rs[i]).project_dir is Some implies exists|g: int, j: int|
                            0 <= g < now.0.len() && 0 <= j < now.0[g].1.len() && now.0[g].1[j] == i by {
                            if i < n {
                                assert(d[i] == rs[i]);
                                let (g, j) = choose|g: int, j: int| 0 <= g < prev.0.len() && 0 <= j < prev.0[g].1.len() && prev.0[g].1[j] == i;
                                assert(now.0[g] == prev.0[g]);
                                assert(now.0[g].1[j] == i);
                            } else {
                                assert(now.0[prev.0.len() as int].1[0] == i);
                            }
                        }
                        assert forall|i: int| 0 <= i < rs.len() && (#[trigger] rs[i]).project_dir is None implies now.1.contains(i as usize) by {
                            assert(i < n);
                            assert(d[i] == rs[i]);
                        }
                        assert forall|g: int, a: int, b: int|
                            0 <= g < now.0.len() && 0 <= a < b < now.0[g].1.len() implies #[trigger] now.0[g].1[a] < #[trigger] now.0[g].1[b] by {
                            assert(g < prev.0.len());
                            assert(now.0[g] == prev.0[g]);
                        }
                    },
                }
            },
            None => {
                assert(now.0 == prev.0);
                assert(now.1 == prev.1.push(n as usize));
                assert forall|g: int, j: int|
                    0 <= g < now.0.len() && 0 <= j < now.0[g].1.len() implies has_root(
                    rs[#[trigger] now.0[g].1[j] as int],
                    now.0[g].0,
                ) by {
                    assert(prev.0[g].1[j] < n);
                }
                assert forall|i: int| 0 <= i < rs.len() && (#[trigger] rs[i]).project_dir is Some implies exists|g: int, j: int|
                    0 <= g < now.0.len() && 0 <= j < now.0[g].1.len() && now.0[g].1[j] == i by {
                    assert(i < n);
                    assert(d[i] == rs[i]);
                }
                assert forall|i: int| 0 <= i < rs.len() && (#[trigger] rs[i]).project_dir is None implies now.1.contains(i as usize) by {
                    if i < n {
                        assert(d[i] == rs[i]);
                        let k = choose|k: int| 0 <= k < prev.1.len() && prev.1[k] == i as usize;
                        assert(now.1[k] == i as usize);
                    } else {
                        assert(now.1[prev.1.len() as int] == i as usize);
                    }
                }
                assert forall|a: int, b: int| 0 <= a < b < now.1.len() implies #[trigger] now.1[a] < #[trigger] now.1[b] by {
                    if b == prev.1.len() {
                        assert(prev.1[a] < n);
                    } else {
                        assert(now.1[a] == prev.1[a] && now.1[b] == prev.1[b]);
                    }
                }
            },
        }
    }
}

/// The first group whose root is `root`.
fn find_group(groups: &Vec<ServerGroup>, root: &str) -> (r: Option<usize>)
    ensures
        match r {
            Some(g) => group_index_from(group_views(groups@), root@, 0) == Some(g as int),
            None => group_index_from(group_views(groups@), root@, 0) is None,
        },
{
    let ghost gv = group_views(groups@);
    let mut g: usize = 0;
    while g < groups.len()
        invariant
            g <= groups.len(),
            gv == group_views(groups@),
            group_index_from(gv, root@, 0) == group_index_from(gv, root@, g as int),
        decreases groups.len() - g,
    {
        if same_text(groups[g].root.as_str(), root) {
            return Some(g);
        }
        g = g + 1;
    }
    None
}

/// Groups the servers by the root of their project directories, in the
/// order the servers are listed.
pub fn group_servers(raw: &Vec<RawServer>) -> (r: ServerGrouping)
    ensures
        (group_views(r.groups@), r.ungrouped@) == group_scan(raw@),
        grouping_fits(raw@.len(), group_views(r.groups@), r.ungrouped@),
{
    let mut groups: Vec<ServerGroup> = Vec::new();
    let mut ungrouped: Vec<usize> = Vec::new();
    let mut i: usize = 0;
    while i < raw.len()
        invariant
            i <= raw.len(),
            (group_views(groups@), ungrouped@) == group_scan(raw@.take(i as int)),
        decreases raw.len() - i,
    {
        assert(raw@.take(i + 1).drop_last() =~= raw@.take(i as int));
        assert(raw@.take(i + 1).last() == raw@[i as int]);
        match &raw[i].project_dir {
            Some(d) => {
                let root = normalize_project_root(d.as_str());
                let ghost gv = group_views(groups@);
                match find_group(&groups, root.as_str()) {
                    Some(g) => {
                        proof {
                            lemma_group_index_from(gv, root@, 0);
                        }
                        assert(gv[g as int] == groups@[g as int]@);
                        groups[g].members.push(i);
                        assert(group_views(groups@) =~= gv.update(
                            g as int,
                            (root@, gv[g as int].1.push(i)),
                        ));
                    },
                    None => {
                        let mut members: Vec<usize> = Vec::new();
                        members.push(i);
                        assert(members@ =~= seq![i]);
                        groups.push(ServerGroup { root, members });
                        assert(group_views(groups@) =~= gv.push((root@, seq![i])));
                    },
                }
            },
            None => {
                ungrouped.push(i);
            },
        }
        i = i + 1;
    }
    assert(raw@.take(raw.len() as int) =~= raw@);
    proof {
        lemma_group_scan_fits(raw@);
    }
    ServerGrouping { groups, ungrouped }
}


// ---------------------------------------------------------------------------
// Building the servers to show
// ---------------------------------------------------------------------------

/// The position in `ms` of the first server with the lowest port.
pub open spec fn min_port_position(rs: Seq<RawServer>, ms: Seq<usize>) -> int
    decreases ms.len(),
{
    if ms.len() <= 1 {
        0
    } else {
        let j = min_port_position(rs, ms.drop_last());
        if rs[ms.last() as int].port < rs[ms[j] as int].port {
            ms.len() - 1
        } else {
            j
        }
    }
}

/// The position in `ms` of the first front-end server.
pub open spec fn first_frontend_position(rs: Seq<RawServer>, ms: Seq<usize>) -> Option<int>
    decreases ms.len(),
{
    if ms.len() == 0 {
        None
    } else {
        match first_frontend_position(rs, ms.drop_last()) {
            Some(k) => Some(k),
            None => if service_role(rs[ms.last() as int]) == "frontend"@ {
                Some(ms.len() - 1)
            } else {
                None
            },
        }
    }
}

/// The position of a group's primary server: its first front-end server,
/// else its first server with the lowest port.
pub open spec fn primary_position(rs: Seq<RawServer>, ms: Seq<usize>) -> int {
    match first_frontend_position(rs, ms) {
        Some(k) => k,
        None => min_port_position(rs, ms),
    }
}

/// The indices in `ms` are servers of `rs`.
pub open spec fn members_in(rs: Seq<RawServer>, ms: Seq<usize>) -> bool {
    forall|j: int| 0 <= j < ms.len() ==> #[trigger] ms[j] < rs.len()
}

/// The primary position lies within a non-empty group.
pub proof fn lemma_primary_in_range(rs: Seq<RawServer>, ms: Seq<usize>)
    requires
        ms.len() > 0,
    ensures
        0 <= min_port_position(rs, ms) < ms.len(),
        first_frontend_position(rs, ms) matches Some(k) ==> 0 <= k < ms.len(),
        0 <= primary_position(rs, ms) < ms.len(),
    decreases ms.len(),
{
    lemma_frontend_in_range(rs, ms);
    if ms.len() > 1 {
        lemma_primary_in_range(rs, ms.drop_last());
    }
}

/// A group's first front-end position lies within it.
pub proof fn lemma_frontend_in_range(rs: Seq<RawServer>, ms: Seq<usize>)
    ensures
        first_frontend_position(rs, ms) matches Some(k) ==> 0 <= k < ms.len(),
    decreases ms.len(),
{
    if ms.len() > 0 {
        lemma_frontend_in_range(rs, ms.drop_last());
    }
}

/// `first_frontend_position` is the first member whose role is `frontend`.
pub proof fn lemma_first_frontend(rs: Seq<RawServer>, ms: Seq<usize>)
    ensures
        match first_frontend_position(rs, ms) {
            Some(k) => 0 <= k < ms.len() && service_role(rs[ms[k] as int]) == "frontend"@
                && forall|i: int| 0 <= i < k ==> service_role(rs[#[trigger] ms[i] as int])
                    != "frontend"@,
            None => forall|i: int| 0 <= i < ms.len() ==> service_role(rs[#[trigger] ms[i] as int])
                != "frontend"@,
        },
    decreases ms.len(),
{
    if ms.len() > 0 {
        let prev = ms.drop_last();
        let n = ms.len() - 1;
        lemma_first_frontend(rs, prev);
        assert(ms.last() == ms[n]);
        match first_frontend_position(rs, prev) {
            Some(k) => {
                assert(prev[k] == ms[k]);
                assert forall|i: int| 0 <= i < k implies service_role(rs[#[trigger] ms[i] as int])
                    != "frontend"@ by {
                    assert(prev[i] == ms[i]);
                }
            },
            None => {
                assert forall|i: int| 0 <= i < n implies service_role(rs[#[trigger] ms[i] as int])
                    != "frontend"@ by {
                    assert(prev[i] == ms[i]);
                }
            },
        }
    }
}

/// `min_port_position` is the first member with the lowest port.
pub proof fn lemma_min_port(rs: Seq<RawServer>, ms: Seq<usize>)
    requires
        ms.len() > 0,
    ensures
        0 <= min_port_position(rs, ms) < ms.len(),
        forall|i: int|
            0 <= i < ms.len() ==> rs[ms[min_port_position(rs, ms)] as int].port <= rs[#[trigger] ms[i] as int].port,
        forall|i: int|
            0 <= i < min_port_position(rs, ms) ==> rs[ms[min_port_position(rs, ms)] as int].port
                < rs[#[trigger] ms[i] as int].port,
    decreases ms.len(),
{
    if ms.len() > 1 {
        let prev = ms.drop_last();
        let n = ms.len() - 1;
        lemma_min_port(rs, prev);
        let j = min_port_position(rs, prev);
        assert(ms.last() == ms[n]);
        assert(prev[j] == ms[j]);
        assert forall|i: int| 0 <= i < n implies rs[#[trigger] ms[i] as int].port >= rs[ms[j] as int].port
            && (i < j ==> rs[ms[i] as int].port > rs[ms[j] as int].port) by {
            assert(prev[i] == ms[i]);
        }
    }
}

/// A group's primary server is its first front-end server; where it has
/// none, it is its first server with the lowest port.
pub proof fn law_primary_choice(rs: Seq<RawServer>, ms: Seq<usize>)
    requires
        ms.len() > 0,
    ensures
        0 <= primary_position(rs, ms) < ms.len(),
        (exists|i: int| 0 <= i < ms.len() && service_role(rs[#[trigger] ms[i] as int]) == "frontend"@)
            ==> {
            &&& service_role(rs[ms[primary_position(rs, ms)] as int]) == "frontend"@
            &&& forall|i: int|
                0 <= i < primary_position(rs, ms) ==> service_role(rs[#[trigger] ms[i] as int])
                    != "frontend"@
        },
        (forall|i: int| 0 <= i < ms.len() ==> service_role(rs[#[trigger] ms[i] as int]) != "frontend"@)
            ==> {
            &&& forall|i: int|
                0 <= i < ms.len() ==> rs[ms[primary_position(rs, ms)] as int].port <= rs[#[trigger] ms[i] as int].port
            &&& forall|i: int|
                0 <= i < primary_position(rs, ms) ==> rs[ms[primary_position(rs, ms)] as int].port
                    < rs[#[trigger] ms[i] as int].port
        },
{
    lemma_first_frontend(rs, ms);
    lemma_min_port(rs, ms);
}

/// The position in `members` of the server to show for the group: the first
/// front-end server, else the first server with the lowest port.
pub fn pick_primary_server(raw: &Vec<RawServer>, members: &Vec<usize>) -> (r: usize)
    requires
        members.len() > 0,
        members_in(raw@, members@),
    ensures
        r == primary_position(raw@, members@),
        r < members.len(),
        (exists|i: int|
            0 <= i < members@.len() && service_role(raw@[#[trigger] members@[i] as int])
                == "frontend"@) ==> service_role(raw@[members@[r as int] as int]) == "frontend"@,
        forall|i: int|
            0 <= i < r ==> service_role(raw@[#[trigger] members@[i] as int]) != "frontend"@,
        (forall|i: int|
            0 <= i < members@.len() ==> service_role(raw@[#[trigger] members@[i] as int])
                != "frontend"@) ==> forall|i: int|
            0 <= i < members@.len() ==> raw@[members@[r as int] as int].port <= raw@[#[trigger] members@[i] as int].port,
{
    proof {
        lemma_primary_in_range(raw@, members@);
        law_primary_choice(raw@, members@);
    }
    let mut k: usize = 0;
    while k < members.len()
        invariant
            k <= members.len(),
            members_in(raw@, members@),
            first_frontend_position(raw@, members@.take(k as int)) is None,
        decreases members.len() - k,
    {
        assert(members@.take(k + 1).drop_last() =~= members@.take(k as int));
        let role = detect_service_role(&raw[members[k]]);
        if same_text(role.as_str(), "frontend") {
            proof {
                lemma_frontend_prefix(raw@, members@, k + 1);
                assert(service_role(raw@[members@[k as int] as int]) == "frontend"@);
                law_primary_choice(raw@, members@);
            }
            return k;
        }
        k = k + 1;
    }
    assert(members@.take(members.len() as int) =~= members@);
    let mut best: usize = 0;
    let mut j: usize = 1;
    while j < members.len()
        invariant
            1 <= j <= members.len(),
            members_in(raw@, members@),
            best == min_port_position(raw@, members@.take(j as int)),
            best < j,
        decreases members.len() - j,
    {
        assert(members@.take(j + 1).drop_last() =~= members@.take(j as int));
        if raw[members[j]].port < raw[members[best]].port {
            best = j;
        }
        j = j + 1;
    }
    best
}

/// Once a prefix of a group holds a front-end server, the first one is the
/// group's first.
pub proof fn lemma_frontend_prefix(rs: Seq<RawServer>, ms: Seq<usize>, n: int)
    requires
        0 <= n <= ms.len(),
        first_frontend_position(rs, ms.take(n)) is Some,
    ensures
        first_frontend_position(rs, ms) == first_frontend_position(rs, ms.take(n)),
    decreases ms.len() - n,
{
    if n < ms.len() {
        assert(ms.take(n + 1).drop_last() =~= ms.take(n));
        lemma_frontend_prefix(rs, ms, n + 1);
    } else {
        assert(ms.take(n) =~= ms);
    }
}

/// The other servers of a group (those not of process `primary_pid`), with
/// their roles.
pub open spec fn related_of(rs: Seq<RawServer>, ms: Seq<usize>, primary_pid: u32) -> Seq<
    (u16, Seq<char>),
>
    decreases ms.len(),
{
    if ms.len() == 0 {
        Seq::empty()
    } else {
        let prev = related_of(rs, ms.drop_last(), primary_pid);
        let s = rs[ms.last() as int];
        if s.pid != primary_pid {
            prev.push((s.port, service_role(s)))
        } else {
            prev
        }
    }
}

/// The server shown for a group of a project with root `root`.
pub open spec fn group_server(
    rs: Seq<RawServer>,
    root: Seq<char>,
    ms: Seq<usize>,
    info: ProjectInfo,
) -> DevServerView {
    let p = rs[ms[primary_position(rs, ms)] as int];
    DevServerView {
        pid: p.pid,
        port: p.port,
        command: p.command@,
        cwd: Some(root),
        project_name: opt_view(info.name),
        project_type: opt_view(info.project_type),
        related_ports: related_of(rs, ms, p.pid),
    }
}

/// The server shown for a server without a project directory.
pub open spec fn lone_server(s: RawServer) -> DevServerView {
    DevServerView {
        pid: s.pid,
        port: s.port,
        command: s.command@,
        cwd: opt_view(s.project_dir),
        project_name: Some(s.command@),
        project_type: None,
        related_ports: Seq::empty(),
    }
}

/// The servers to show, before ordering: one per group, then one per
/// ungrouped server.
pub open spec fn servers_to_show(
    rs: Seq<RawServer>,
    gs: Seq<(Seq<char>, Seq<usize>)>,
    ung: Seq<usize>,
    infos: Seq<ProjectInfo>,
) -> Seq<DevServerView> {
    Seq::new(gs.len(), |k: int| group_server(rs, gs[k].0, gs[k].1, infos[k])) + Seq::new(
        ung.len(),
        |k: int| lone_server(rs[ung[k] as int]),
    )
}

/// The servers are in ascending order of port.
pub open spec fn sorted_by_port(v: Seq<DevServerView>) -> bool {
    forall|i: int, j: int| 0 <= i < j < v.len() ==> v[i].port <= v[j].port
}

/// Whether a grouping of `raw.len()` servers fits them (what `build_dev_servers` needs).
pub fn grouping_fits_servers(raw: &Vec<RawServer>, grouping: &ServerGrouping) -> (r: bool)
    ensures
        r == grouping_fits(raw@.len(), group_views(grouping.groups@), grouping.ungrouped@),
{
    let ghost gv = group_views(grouping.groups@);
    let mut g: usize = 0;
    while g < grouping.groups.len()
        invariant
            g <= grouping.groups.len(),
            gv == group_views(grouping.groups@),
            forall|h: int| 0 <= h < g ==> #[trigger] gv[h].1.len() > 0,
            forall|h: int, j: int|
                0 <= h < g && 0 <= j < gv[h].1.len() ==> #[trigger] gv[h].1[j] < raw@.len(),
        decreases grouping.groups.len() - g,
    {
        let ms = &grouping.groups[g].members;
        assert(gv[g as int].1 == ms@);
        if ms.len() == 0 {
            assert(gv[g as int].1.len() == 0);
            return false;
        }
        let mut j: usize = 0;
        while j < ms.len()
            invariant
                g < gv.len(),
                gv == group_views(grouping.groups@),
                j <= ms.len(),
                gv[g as int].1 == ms@,
                forall|m: int| 0 <= m < j ==> ms@[m] < raw@.len(),
            decreases ms.len() - j,
        {
            if ms[j] >= raw.len() {
                assert(gv[g as int].1[j as int] >= raw@.len());
                return false;
            }
            j = j + 1;
        }
        assert forall|h: int, m: int| 0 <= h < g + 1 && 0 <= m < gv[h].1.len() implies #[trigger] gv[h].1[m] < raw@.len() by {
            if h == g {
                assert(ms@[m] < raw@.len());
            }
        }
        g = g + 1;
    }
    let mut j: usize = 0;
    while j < grouping.ungrouped.len()
        invariant
            j <= grouping.ungrouped.len(),
            forall|m: int| 0 <= m < j ==> grouping.ungrouped@[m] < raw@.len(),
        decreases grouping.ungrouped.len() - j,
    {
        if grouping.ungrouped[j] >= raw.len() {
            return false;
        }
        j = j + 1;
    }
    true
}

fn opt_clone(o: &Option<String>) -> (r: Option<String>)
    ensures
        r == *o,
{
    match o {
        Some(s) => Some(s.clone()),
        None => None,
    }
}

/// The server shown for one group.
fn build_group_server(
    raw: &Vec<RawServer>,
    group: &ServerGroup,
    info: &ProjectInfo,
) -> (r: DevServer)
    requires
        group.members.len() > 0,
        members_in(raw@, group.members@),
    ensures
        r@ == group_server(raw@, group.root@, group.members@, *info),
{
    let ms = &group.members;
    let pos = pick_primary_server(raw, ms);
    let primary = &raw[ms[pos]];
    let mut related: Vec<RelatedPort> = Vec::new();
    let mut j: usize = 0;
    while j < ms.len()
        invariant
            j <= ms.len(),
            members_in(raw@, ms@),
            related@.map_values(|r: RelatedPort| r@) == related_of(
                raw@,
                ms@.take(j as int),
                primary.pid,
            ),
        decreases ms.len() - j,
    {
        assert(ms@.take(j + 1).drop_last() =~= ms@.take(j as int));
        let s = &raw[ms[j]];
        if s.pid != primary.pid {
            let ghost before = related@.map_values(|r: RelatedPort| r@);
            let role = detect_service_role(s);
            related.push(RelatedPort { port: s.port, role });
            assert(related@.map_values(|r: RelatedPort| r@) =~= before.push(
                (s.port, service_role(*s)),
            ));
        }
        j = j + 1;
    }
    assert(ms@.take(ms.len() as int) =~= ms@);
    DevServer {
        pid: primary.pid,
        port: primary.port,
        command: primary.command.clone(),
        cwd: Some(group.root.clone()),
        project_name: opt_clone(&info.name),
        project_type: opt_clone(&info.project_type),
        related_ports: related,
    }
}

/// The servers on port `p`, in order.
pub open spec fn on_port(v: Seq<DevServerView>, p: u16) -> Seq<DevServerView> {
    v.filter(|x: DevServerView| x.port == p)
}

/// Inserting `x` where every server before it has a lower port puts `x`
/// first among the servers on its port and leaves the other ports alone.
pub proof fn lemma_insert_on_port(s: Seq<DevServerView>, pos: int, x: DevServerView, p: u16)
    requires
        0 <= pos <= s.len(),
        forall|i: int| 0 <= i < pos ==> s[i].port < x.port,
    ensures
        on_port(s.insert(pos, x), p) == if x.port == p {
            seq![x] + on_port(s, p)
        } else {
            on_port(s, p)
        },
{
    let f = |y: DevServerView| y.port == p;
    let a = s.take(pos);
    let b = s.skip(pos);
    assert(s.insert(pos, x) =~= a + seq![x] + b);
    assert(s =~= a + b);
    Seq::filter_distributes_over_add(a + seq![x], b, f);
    Seq::filter_distributes_over_add(a, seq![x], f);
    Seq::filter_distributes_over_add(a, b, f);
    if x.port == p {
        assert(a.filter(f) =~= Seq::<DevServerView>::empty()) by {
            if a.filter(f).len() > 0 {
                let y = a.filter(f)[0];
                assert(a.filter(f).contains(y));
                a.lemma_filter_contains_rev(f, y);
                a.lemma_filter_pred(f, 0);
                let k = choose|k: int| 0 <= k < a.len() && a[k] == y;
                assert(a[k] == s[k]);
            }
        }
    }
    reveal_with_fuel(Seq::filter, 2);
    assert(seq![x].drop_last() =~= Seq::<DevServerView>::empty());
    if x.port == p {
        assert(seq![x].filter(f) =~= seq![x]);
        assert(Seq::<DevServerView>::empty() + seq![x] =~= seq![x]);
    } else {
        assert(seq![x].filter(f) =~= Seq::<DevServerView>::empty());
        assert(a.filter(f) + Seq::<DevServerView>::empty() =~= a.filter(f));
    }
}

/// Orders the servers by port, keeping the order of servers on one port.
pub fn sort_by_port(v: Vec<DevServer>) -> (r: Vec<DevServer>)
    ensures
        sorted_by_port(server_views(r@)),
        server_views(r@).to_multiset() == server_views(v@).to_multiset(),
        forall|p: u16| #[trigger] on_port(server_views(r@), p) == on_port(server_views(v@), p),
{
    broadcast use vstd::seq_lib::group_to_multiset_ensures;

    let mut rest = v;
    let mut out: Vec<DevServer> = Vec::new();
    let ghost all = server_views(rest@);
    assert(server_views(out@) =~= Seq::<DevServerView>::empty());
    assert(server_views(out@).to_multiset() =~= vstd::multiset::Multiset::empty());
    assert(server_views(out@).to_multiset().add(all.to_multiset()) =~= all.to_multiset());
    assert forall|p: u16| #[trigger] on_port(all, p) == on_port(server_views(rest@), p) + on_port(
        server_views(out@),
        p,
    ) by {
        reveal(Seq::filter);
        assert(on_port(server_views(out@), p) =~= Seq::<DevServerView>::empty());
        assert(on_port(all, p) + Seq::<DevServerView>::empty() =~= on_port(all, p));
    }
    while rest.len() > 0
        invariant
            sorted_by_port(server_views(out@)),
            server_views(out@).to_multiset().add(server_views(rest@).to_multiset())
                == all.to_multiset(),
            forall|p: u16|
                #[trigger] on_port(all, p) == on_port(server_views(rest@), p) + on_port(
                    server_views(out@),
                    p,
                ),
        decreases rest.len(),
    {
        let ghost rv = server_views(rest@);
        let ghost ov = server_views(out@);
        let x = rest.pop().unwrap();
        assert(server_views(rest@) =~= rv.drop_last());
        assert(rv =~= server_views(rest@).push(x@));
        let mut p: usize = 0;
        while p < out.len() && out[p].port < x.port
            invariant
                p <= out.len(),
                ov == server_views(out@),
                forall|i: int| 0 <= i < p ==> ov[i].port < x.port,
            decreases out.len() - p,
        {
            p = p + 1;
        }
        let ghost xv = x@;
        out.insert(p, x);
        assert(server_views(out@) =~= ov.insert(p as int, xv));
        assert forall|i: int, j: int| 0 <= i < j < server_views(out@).len() implies server_views(
            out@,
        )[i].port <= server_views(out@)[j].port by {
            let nv = server_views(out@);
            if j < p {
                assert(nv[i] == ov[i] && nv[j] == ov[j]);
            } else if j == p {
                assert(nv[i] == ov[i]);
            } else if i < p {
                assert(nv[i] == ov[i] && nv[j] == ov[j - 1]);
                assert(ov[p as int].port >= xv.port);
            } else if i == p {
                assert(nv[j] == ov[j - 1]);
                assert(ov[p as int].port >= xv.port);
            } else {
                assert(nv[i] == ov[i - 1] && nv[j] == ov[j - 1]);
            }
        }
        proof {
            lemma_insert_multiset(ov, p as int, xv);
            server_views(rest@).to_multiset_ensures();
            assert(server_views(rest@).push(xv).to_multiset() =~= server_views(rest@).to_multiset().insert(xv));
            assert(server_views(out@).to_multiset().add(server_views(rest@).to_multiset()) =~= ov.to_multiset().add(rv.to_multiset()));
        }
        assert forall|q: u16| #[trigger] on_port(all, q) == on_port(server_views(rest@), q) + on_port(
            server_views(out@),
            q,
        ) by {
            lemma_insert_on_port(ov, p as int, xv, q);
            let rs = server_views(rest@);
            rs.lemma_filter_push(xv, |x: DevServerView| x.port == q);
            assert(rv == rs.push(xv));
            if xv.port == q {
                assert(on_port(rv, q) == on_port(rs, q).push(xv));
                assert(on_port(rs, q).push(xv) + on_port(ov, q) =~= on_port(rs, q) + (seq![xv]
                    + on_port(ov, q)));
            } else {
                assert(on_port(rv, q) == on_port(rs, q));
            }
        }
    }
    proof {
        assert(server_views(rest@).to_multiset() =~= vstd::multiset::Multiset::empty());
        assert(server_views(out@).to_multiset().add(vstd::multiset::Multiset::empty()) =~= server_views(out@).to_multiset());
        assert forall|q: u16| #[trigger] on_port(server_views(out@), q) == on_port(all, q) by {
            reveal(Seq::filter);
            assert(server_views(rest@) =~= Seq::<DevServerView>::empty());
            assert(on_port(server_views(rest@), q) =~= Seq::<DevServerView>::empty());
            assert(Seq::<DevServerView>::empty() + on_port(server_views(out@), q) =~= on_port(server_views(out@), q));
        }
    }
    out
}

/// Inserting an element adds it to the multiset of a sequence.
pub proof fn lemma_insert_multiset<A>(s: Seq<A>, p: int, x: A)
    requires
        0 <= p <= s.len(),
    ensures
        s.insert(p, x).to_multiset() == s.to_multiset().insert(x),
{
    broadcast use vstd::seq_lib::group_to_multiset_ensures;
    let t = s.insert(p, x);
    assert(t.remove(p) =~= s);
    assert(t[p] == x);
    assert(t.to_multiset().count(x) > 0);
    assert(t.to_multiset() =~= s.to_multiset().insert(x));
}


/// Some server of `v` is shown for the project at `root`, with the name and
/// kind that `info` gives.
pub open spec fn shows_project(v: Seq<DevServerView>, root: Seq<char>, info: ProjectInfo) -> bool {
    exists|j: int|
        0 <= j < v.len() && v[j].cwd == Some(root) && v[j].project_name == opt_view(info.name)
            && v[j].project_type == opt_view(info.project_type)
}

/// The servers to show, one per project group and one per server without a
/// project directory, in ascending order of port.
pub fn build_dev_servers(
    raw: &Vec<RawServer>,
    grouping: &ServerGrouping,
    infos: &Vec<ProjectInfo>,
) -> (r: Vec<DevServer>)
    requires
        grouping_fits(raw@.len(), group_views(grouping.groups@), grouping.ungrouped@),
        infos.len() == grouping.groups.len(),
    ensures
        sorted_by_port(server_views(r@)),
        server_views(r@).to_multiset() == servers_to_show(
            raw@,
            group_views(grouping.groups@),
            grouping.ungrouped@,
            infos@,
        ).to_multiset(),
        forall|k: int|
            0 <= k < r@.len() ==> exists|i: int|
                0 <= i < raw@.len() && (#[trigger] r@[k]).pid == raw@[i].pid && r@[k].port
                    == raw@[i].port,
        forall|k: int|
            0 <= k < grouping.groups@.len() ==> #[trigger] shows_project(
                server_views(r@),
                grouping.groups@[k].root@,
                infos@[k],
            ),
{
    let ghost gv = group_views(grouping.groups@);
    let ghost ung = grouping.ungrouped@;
    let ghost target = servers_to_show(raw@, gv, ung, infos@);
    let mut v: Vec<DevServer> = Vec::new();
    let mut k: usize = 0;
    while k < grouping.groups.len()
        invariant
            k <= grouping.groups.len(),
            gv == group_views(grouping.groups@),
            infos.len() == grouping.groups.len(),
            grouping_fits(raw@.len(), gv, ung),
            server_views(v@) == target.take(k as int),
            target == servers_to_show(raw@, gv, ung, infos@),
        decreases grouping.groups.len() - k,
    {
        let group = &grouping.groups[k];
        assert(gv[k as int] == group@);
        assert(gv[k as int].1.len() > 0);
        assert(group.members.len() > 0);
        assert(members_in(raw@, group.members@)) by {
            assert forall|j: int| 0 <= j < group.members@.len() implies #[trigger] group.members@[j]
                < raw@.len() by {
                assert(gv[k as int].1[j] < raw@.len());
            }
        }
        let d = build_group_server(raw, group, &infos[k]);
        let ghost before = server_views(v@);
        v.push(d);
        assert(server_views(v@) =~= before.push(d@));
        assert(target.take(k + 1) =~= target.take(k as int).push(target[k as int]));
        k = k + 1;
    }
    let mut j: usize = 0;
    while j < grouping.ungrouped.len()
        invariant
            j <= grouping.ungrouped.len(),
            ung == grouping.ungrouped@,
            gv.len() == grouping.groups.len(),
            grouping_fits(raw@.len(), gv, ung),
            server_views(v@) == target.take(gv.len() + j as int),
            target == servers_to_show(raw@, gv, ung, infos@),
        decreases grouping.ungrouped.len() - j,
    {
        let s = &raw[grouping.ungrouped[j]];
        let d = DevServer {
            pid: s.pid,
            port: s.port,
            command: s.command.clone(),
            cwd: opt_clone(&s.project_dir),
            project_name: Some(s.command.clone()),
            project_type: None,
            related_ports: Vec::new(),
        };
        let ghost before = server_views(v@);
        v.push(d);
        assert(d@.related_ports =~= Seq::<(u16, Seq<char>)>::empty());
        assert(server_views(v@) =~= before.push(d@));
        assert(target.take(gv.len() + j + 1) =~= target.take(gv.len() + j).push(
            target[gv.len() + j],
        ));
        j = j + 1;
    }
    assert(target.take((gv.len() + ung.len()) as int) =~= target);
    let r = sort_by_port(v);
    proof {
        law_shown_servers_are_listed(raw@, gv, ung, infos@);
        broadcast use vstd::seq_lib::group_to_multiset_ensures;

        assert forall|k: int| 0 <= k < r@.len() implies exists|i: int|
            0 <= i < raw@.len() && (#[trigger] r@[k]).pid == raw@[i].pid && r@[k].port
                == raw@[i].port by {
            let x = server_views(r@)[k];
            assert(server_views(r@).contains(x));
            assert(server_views(r@).to_multiset().count(x) > 0);
            assert(target.to_multiset().count(x) > 0);
            assert(target.contains(x));
            let t = choose|t: int| 0 <= t < target.len() && target[t] == x;
            assert(x.pid == r@[k].pid && x.port == r@[k].port);
        }
        law_group_server_carries_info(raw@, gv, ung, infos@);
        assert forall|k: int| 0 <= k < grouping.groups@.len() implies #[trigger] shows_project(
            server_views(r@),
            grouping.groups@[k].root@,
            infos@[k],
        ) by {
            let x = target[k];
            assert(gv[k] == grouping.groups@[k]@);
            assert(target.contains(x));
            assert(target.to_multiset().count(x) > 0);
            assert(server_views(r@).to_multiset().count(x) > 0);
            assert(server_views(r@).contains(x));
            let j = choose|j: int| 0 <= j < server_views(r@).len() && server_views(r@)[j] == x;
            assert(server_views(r@)[j] == r@[j]@);
            assert(x.cwd == Some(gv[k].0));
        }
    }
    r
}

/// The server shown for each project group carries that group's root as
/// its directory, and the project name and kind detected for it.
pub proof fn law_group_server_carries_info(
    rs: Seq<RawServer>,
    gs: Seq<(Seq<char>, Seq<usize>)>,
    ung: Seq<usize>,
    infos: Seq<ProjectInfo>,
)
    requires
        infos.len() == gs.len(),
    ensures
        forall|k: int|
            0 <= k < gs.len() ==> {
                let shown = #[trigger] servers_to_show(rs, gs, ung, infos)[k];
                &&& shown.cwd == Some(gs[k].0)
                &&& shown.project_name == opt_view(infos[k].name)
                &&& shown.project_type == opt_view(infos[k].project_type)
            },
{
}

/// Every server shown is a listed server: its process and port are those of
/// one of the servers `rs`.
pub proof fn law_shown_servers_are_listed(
    rs: Seq<RawServer>,
    gs: Seq<(Seq<char>, Seq<usize>)>,
    ung: Seq<usize>,
    infos: Seq<ProjectInfo>,
)
    requires
        grouping_fits(rs.len(), gs, ung),
        infos.len() == gs.len(),
    ensures
        forall|t: int|
            0 <= t < servers_to_show(rs, gs, ung, infos).len() ==> exists|i: int|
                0 <= i < rs.len() && (#[trigger] servers_to_show(rs, gs, ung, infos)[t]).pid
                    == rs[i].pid && servers_to_show(rs, gs, ung, infos)[t].port == rs[i].port,
{
    let v = servers_to_show(rs, gs, ung, infos);
    assert forall|t: int| 0 <= t < v.len() implies exists|i: int|
        0 <= i < rs.len() && (#[trigger] v[t]).pid == rs[i].pid && v[t].port == rs[i].port by {
        if t < gs.len() {
            assert(gs[t].1.len() > 0);
            lemma_primary_in_range(rs, gs[t].1);
            let pos = primary_position(rs, gs[t].1);
            let i = gs[t].1[pos] as int;
            assert(i < rs.len());
            assert(v[t] == group_server(rs, gs[t].0, gs[t].1, infos[t]));
        } else {
            let u = t - gs.len();
            assert(ung[u] < rs.len());
            assert(v[t] == lone_server(rs[ung[u] as int]));
        }
    }
}

} // verus!
