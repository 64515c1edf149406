//! Recognising what kind of project a directory holds, and how to start it,
//! from the files it holds.
use vstd::prelude::*;
use crate::json::{document_has_key, has_member_key, json_document, parse_json_document, DocumentView, JsonDocument};
use crate::paths::{file_name, path_file_name};
use crate::text::{
    concat_text, opt_view, replace_all, replace_all_seq, chars_of, string_from_chars, contains_seq,
    occurs_at, starts_with_seq, lemma_replace_absent, lemma_replace_at_start, lemma_replace_keeps_prefix,
};

verus! {

/// What is on disk in a directory that may hold a `package.json`.
#[derive(Clone, Debug, PartialEq, Eq)]
pub struct ManifestDir {
    /// The text of `package.json`, where it could be read.
    pub manifest: Option<String>,
    /// `next.config.js` exists.
    pub next_config_js: bool,
    /// `next.config.mjs` exists.
    pub next_config_mjs: bool,
    /// `next.config.ts` exists.
    pub next_config_ts: bool,
    /// `nuxt.config.ts` exists.
    pub nuxt_config_ts: bool,
    /// `vite.config.ts` exists.
    pub vite_config_ts: bool,
    /// `vite.config.js` exists.
    pub vite_config_js: bool,
    /// `nest-cli.json` exists.
    pub nest_cli_json: bool,
}

/// What is on disk in a project directory.
#[derive(Clone, Debug, PartialEq, Eq)]
pub struct ProjectFiles {
    /// The directory itself.
    pub root: ManifestDir,
    /// Its `frontend/` subdirectory.
    pub frontend: ManifestDir,
    /// Its `client/` subdirectory.
    pub client: ManifestDir,
    /// `manage.py` exists.
    pub manage_py: bool,
    /// `backend/manage.py` exists.
    pub backend_manage_py: bool,
    /// `requirements.txt` exists.
    pub requirements_txt: bool,
    /// `pyproject.toml` exists.
    pub pyproject_toml: bool,
    /// `backend/requirements.txt` exists.
    pub backend_requirements_txt: bool,
    /// `go.mod` exists.
    pub go_mod: bool,
}

/// The lock files of JavaScript package managers in a project directory.
#[derive(Clone, Debug, PartialEq, Eq)]
pub struct LockFiles {
    /// `pnpm-lock.yaml` exists.
    pub pnpm_lock_yaml: bool,
    /// `yarn.lock` exists.
    pub yarn_lock: bool,
    /// `bun.lockb` exists.
    pub bun_lockb: bool,
    /// `bun.lock` exists.
    pub bun_lock: bool,
}

/// What detection found out about a project directory.
#[derive(Clone, Debug, PartialEq, Eq)]
pub struct DetectedProject {
    pub name: String,
    pub project_type: Option<String>,
    pub start_command: String,
}

/// What a discovered server's project directory tells: its name and kind.
#[derive(Clone, Debug, PartialEq, Eq)]
pub struct ProjectInfo {
    pub name: Option<String>,
    pub project_type: Option<String>,
}

// ---------------------------------------------------------------------------
// Specifications
// ---------------------------------------------------------------------------

/// The parsed `package.json` of a directory, where it could be read and parsed.
pub open spec fn parsed_manifest(md: ManifestDir) -> Option<DocumentView> {
    match md.manifest {
        Some(t) => json_document(t@),
        None => None,
    }
}

/// The package lists `name` among its dependencies.
pub open spec fn dep(doc: DocumentView, name: Seq<char>) -> bool {
    has_member_key(doc, "dependencies"@, name)
}

/// The package lists `name` among its development dependencies.
pub open spec fn dev_dep(doc: DocumentView, name: Seq<char>) -> bool {
    has_member_key(doc, "devDependencies"@, name)
}

/// The package has a script `name`.
pub open spec fn script(doc: DocumentView, name: Seq<char>) -> bool {
    has_member_key(doc, "scripts"@, name)
}

/// A Next.js project.
pub open spec fn is_next(doc: DocumentView, md: ManifestDir) -> bool {
    md.next_config_js || md.next_config_mjs || md.next_config_ts || dep(doc, "next"@)
}

/// A Nuxt project.
pub open spec fn is_nuxt(doc: DocumentView, md: ManifestDir) -> bool {
    md.nuxt_config_ts || dep(doc, "nuxt"@)
}

/// A Vite project.
pub open spec fn is_vite(md: ManifestDir) -> bool {
    md.vite_config_ts || md.vite_config_js
}

/// A NestJS project.
pub open spec fn is_nest(doc: DocumentView, md: ManifestDir) -> bool {
    md.nest_cli_json || dep(doc, "@nestjs/core"@)
}

/// The package uses React.
pub open spec fn uses_react(doc: DocumentView) -> bool {
    dep(doc, "react"@) || dev_dep(doc, "react"@)
}

/// The kind of a Vite project.
pub open spec fn vite_kind(doc: DocumentView) -> Seq<char> {
    if dep(doc, "vue"@) {
        "Vue + Vite"@
    } else if uses_react(doc) {
        "React + Vite"@
    } else {
        "Vite"@
    }
}

/// The kind and start command of a package in `md`, started after `prefix`.
pub open spec fn package_setup(doc: DocumentView, md: ManifestDir, prefix: Seq<char>) -> (
    Seq<char>,
    Seq<char>,
) {
    if is_next(doc, md) {
        ("Next.js"@, prefix + "npm run dev"@)
    } else if is_nuxt(doc, md) {
        ("Nuxt"@, prefix + "npm run dev"@)
    } else if is_vite(md) {
        (vite_kind(doc), prefix + "npm run dev"@)
    } else if is_nest(doc, md) {
        ("NestJS"@, prefix + "npm run start:dev"@)
    } else if dep(doc, "express"@) {
        ("Express"@, prefix + "npm run dev"@)
    } else if script(doc, "dev"@) {
        ("Node.js"@, prefix + "npm run dev"@)
    } else if script(doc, "start"@) {
        ("Node.js"@, prefix + "npm start"@)
    } else {
        ("Node.js"@, prefix + "npm run dev"@)
    }
}

/// The kind and start command of a project without a readable `package.json`.
pub open spec fn fallback_setup(f: ProjectFiles) -> (Option<Seq<char>>, Seq<char>) {
    if f.manage_py {
        (Some("Django"@), "python manage.py runserver"@)
    } else if f.backend_manage_py {
        (Some("Django"@), "cd backend && python manage.py runserver"@)
    } else if f.requirements_txt || f.pyproject_toml {
        (Some("Python"@), "python main.py"@)
    } else if f.backend_requirements_txt {
        (Some("Python"@), "cd backend && python main.py"@)
    } else if f.go_mod {
        (Some("Go"@), "go run ."@)
    } else {
        (None, "npm run dev"@)
    }
}

/// A package kind and command as a project kind and command.
pub open spec fn some_kind(p: (Seq<char>, Seq<char>)) -> (Option<Seq<char>>, Seq<char>) {
    (Some(p.0), p.1)
}

/// The kind and start command of a project: from the first `package.json`
/// that parses (the directory's, then `frontend/`, then `client/`), else
/// from the Python and Go files.
pub open spec fn project_setup(f: ProjectFiles) -> (Option<Seq<char>>, Seq<char>) {
    match parsed_manifest(f.root) {
        Some(d) => some_kind(package_setup(d, f.root, ""@)),
        None => match parsed_manifest(f.frontend) {
            Some(d) => some_kind(package_setup(d, f.frontend, "cd frontend && "@)),
            None => match parsed_manifest(f.client) {
                Some(d) => some_kind(package_setup(d, f.client, "cd client && "@)),
                None => fallback_setup(f),
            },
        },
    }
}

/// The name of a project: the last component of its directory.
pub open spec fn project_name(dir: Seq<char>) -> Seq<char> {
    match path_file_name(dir) {
        Some(n) => n,
        None => "unknown"@,
    }
}

/// The kind of a package in `md`, as the scanner names it.
pub open spec fn js_project_kind(doc: DocumentView, md: ManifestDir) -> Seq<char> {
    if is_next(doc, md) {
        "Next.js"@
    } else if is_nuxt(doc, md) {
        "Nuxt"@
    } else if is_vite(md) {
        vite_kind(doc)
    } else if dep(doc, "express"@) {
        "Express"@
    } else if is_nest(doc, md) {
        "NestJS"@
    } else if uses_react(doc) {
        "React"@
    } else if dep(doc, "vue"@) {
        "Vue"@
    } else {
        "Node.js"@
    }
}

/// The kind of a discovered server's project.
pub open spec fn server_project_kind(f: ProjectFiles) -> Option<Seq<char>> {
    match parsed_manifest(f.root) {
        Some(d) => Some(js_project_kind(d, f.root)),
        None => match parsed_manifest(f.frontend) {
            Some(d) => Some(js_project_kind(d, f.frontend)),
            None => match parsed_manifest(f.client) {
                Some(d) => Some(js_project_kind(d, f.client)),
                None => if f.manage_py || f.backend_manage_py {
                    Some("Django"@)
                } else if f.requirements_txt || f.pyproject_toml || f.backend_requirements_txt {
                    Some("Python"@)
                } else if f.go_mod {
                    Some("Go"@)
                } else {
                    None
                },
            },
        },
    }
}

/// The start command adjusted to the package manager whose lock file exists.
pub open spec fn adjusted_command(cmd: Seq<char>, locks: LockFiles) -> Seq<char> {
    if locks.pnpm_lock_yaml {
        replace_all_seq(
            replace_all_seq(cmd, "npm run"@, "pnpm run"@),
            "npm start"@,
            "pnpm start"@,
        )
    } else if locks.yarn_lock {
        replace_all_seq(replace_all_seq(cmd, "npm run"@, "yarn"@), "npm start"@, "yarn start"@)
    } else if locks.bun_lockb || locks.bun_lock {
        replace_all_seq(
            replace_all_seq(cmd, "npm run"@, "bun run"@),
            "npm start"@,
            "bun start"@,
        )
    } else {
        cmd
    }
}

/// The start command under each package manager: where `pnpm-lock.yaml`
/// exists, `npm run` becomes `pnpm run` and `npm start` becomes
/// `pnpm start`; else where `yarn.lock` exists, `npm run` becomes `yarn` and
/// `npm start` becomes `yarn start`; else where `bun.lockb` or `bun.lock`
/// exists, `npm run` becomes `bun run` and `npm start` becomes `bun start`;
/// with none of these files the command is kept as it is.
pub proof fn law_package_manager_command(cmd: Seq<char>, locks: LockFiles)
    ensures
        locks.pnpm_lock_yaml ==> adjusted_command(cmd, locks) == replace_all_seq(
            replace_all_seq(cmd, "npm run"@, "pnpm run"@),
            "npm start"@,
            "pnpm start"@,
        ),
        !locks.pnpm_lock_yaml && locks.yarn_lock ==> adjusted_command(cmd, locks)
            == replace_all_seq(replace_all_seq(cmd, "npm run"@, "yarn"@), "npm start"@, "yarn start"@),
        !locks.pnpm_lock_yaml && !locks.yarn_lock && locks.bun_lockb ==> adjusted_command(cmd, locks)
            == replace_all_seq(replace_all_seq(cmd, "npm run"@, "bun run"@), "npm start"@, "bun start"@),
        !locks.pnpm_lock_yaml && !locks.yarn_lock && locks.bun_lock ==> adjusted_command(cmd, locks)
            == replace_all_seq(replace_all_seq(cmd, "npm run"@, "bun run"@), "npm start"@, "bun start"@),
        !locks.pnpm_lock_yaml && !locks.yarn_lock && !locks.bun_lockb && !locks.bun_lock
            ==> adjusted_command(cmd, locks) == cmd,
{
}

/// Either of bun's lock files, `bun.lockb` and `bun.lock`, gives the same
/// command, whether or not the other exists.
pub proof fn law_bun_lock_files_agree(cmd: Seq<char>, a: LockFiles, b: LockFiles)
    requires
        !a.pnpm_lock_yaml && !a.yarn_lock && (a.bun_lockb || a.bun_lock),
        !b.pnpm_lock_yaml && !b.yarn_lock && (b.bun_lockb || b.bun_lock),
    ensures
        adjusted_command(cmd, a) == adjusted_command(cmd, b),
{
}

/// The lock files decide in the order pnpm, yarn, bun: a pnpm lock file
/// decides whatever else exists, and a yarn lock file decides over bun's.
pub proof fn law_lock_file_precedence(cmd: Seq<char>, locks: LockFiles)
    ensures
        locks.pnpm_lock_yaml ==> adjusted_command(cmd, locks) == adjusted_command(
            cmd,
            (LockFiles { pnpm_lock_yaml: true, yarn_lock: false, bun_lockb: false, bun_lock: false }),
        ),
        !locks.pnpm_lock_yaml && locks.yarn_lock ==> adjusted_command(cmd, locks)
            == adjusted_command(
            cmd,
            (LockFiles { pnpm_lock_yaml: false, yarn_lock: true, bun_lockb: false, bun_lock: false }),
        ),
{
}

/// No `npm start` can begin inside `lead`: each `n` in it is followed, within
/// it, by something other than the `p` or the `s` of `npm start`.
pub open spec fn no_npm_start_inside(lead: Seq<char>) -> bool {
    forall|k: int|
        0 <= k < lead.len() && #[trigger] lead[k] == 'n' ==> (k + 1 < lead.len() && lead[k + 1]
            != 'p') || (k + 4 < lead.len() && lead[k + 4] != 's')
}

/// `npm run SCRIPT` with `npm run` replaced by `lead` less its last space,
/// then `npm start` by `start`, is `lead` followed by the script, where the
/// script does not mention `npm`.
proof fn lemma_run_script(script: Seq<char>, lead: Seq<char>, start: Seq<char>)
    requires
        !contains_seq(script, "npm"@),
        lead.len() > 0,
        lead.last() == ' ',
        no_npm_start_inside(lead),
    ensures
        replace_all_seq(
            replace_all_seq("npm run "@ + script, "npm run"@, lead.drop_last()),
            "npm start"@,
            start,
        ) == lead + script,
{
    reveal_strlit("npm run ");
    reveal_strlit("npm run");
    reveal_strlit("npm start");
    reveal_strlit("npm");
    reveal_strlit(" ");
    let run = lead.drop_last();
    let rest = " "@ + script;
    assert("npm run "@ + script =~= "npm run"@ + rest);
    lemma_replace_at_start(rest, "npm run"@, run);
    assert forall|i: int| !occurs_at(rest, "npm run"@, i) by {
        if occurs_at(rest, "npm run"@, i) {
            let m = rest.subrange(i, i + 7);
            assert(m[0] == rest[i] && m[1] == rest[i + 1] && m[2] == rest[i + 2]);
            if i == 0 {
                assert(rest[0] == ' ');
            } else {
                assert(script.subrange(i - 1, i + 2) =~= "npm"@);
                assert(occurs_at(script, "npm"@, i - 1));
            }
        }
    }
    lemma_replace_absent(rest, "npm run"@, run);
    assert(run + rest =~= lead + script);
    assert forall|i: int| 0 <= i < lead.len() implies !starts_with_seq(
        #[trigger] (lead + script).skip(i),
        "npm start"@,
    ) by {
        let t = (lead + script).skip(i);
        if starts_with_seq(t, "npm start"@) {
            let m = t.take(9);
            assert(m[0] == lead[i]);
            assert(m[1] == (lead + script)[i + 1]);
            assert(m[4] == (lead + script)[i + 4]);
        }
    }
    lemma_replace_keeps_prefix(lead, script, "npm start"@, start);
    assert forall|i: int| !occurs_at(script, "npm start"@, i) by {
        if occurs_at(script, "npm start"@, i) {
            let m = script.subrange(i, i + 9);
            assert(m[0] == script[i] && m[1] == script[i + 1] && m[2] == script[i + 2]);
            assert(script.subrange(i, i + 3) =~= "npm"@);
            assert(occurs_at(script, "npm"@, i));
        }
    }
    lemma_replace_absent(script, "npm start"@, start);
}

/// `npm start` becomes `pnpm start` where `pnpm-lock.yaml` exists, else
/// `yarn start` where `yarn.lock` exists, else `bun start` where
/// `bun.lockb` or `bun.lock` exists, and stays as it is with none of them.
pub proof fn law_start_by_package_manager(locks: LockFiles)
    ensures
        locks.pnpm_lock_yaml ==> adjusted_command("npm start"@, locks) == "pnpm start"@,
        !locks.pnpm_lock_yaml && locks.yarn_lock ==> adjusted_command("npm start"@, locks)
            == "yarn start"@,
        !locks.pnpm_lock_yaml && !locks.yarn_lock && (locks.bun_lockb || locks.bun_lock)
            ==> adjusted_command("npm start"@, locks) == "bun start"@,
        !locks.pnpm_lock_yaml && !locks.yarn_lock && !locks.bun_lockb && !locks.bun_lock
            ==> adjusted_command("npm start"@, locks) == "npm start"@,
{
    reveal_strlit("npm start");
    reveal_strlit("npm run");
    let c = "npm start"@;
    assert forall|i: int| !occurs_at(c, "npm run"@, i) by {
        if occurs_at(c, "npm run"@, i) {
            let m = c.subrange(i, i + 7);
            assert(m[0] == c[i] && m[4] == c[i + 4]);
        }
    }
    let e = Seq::<char>::empty();
    assert(c + e =~= c);
    lemma_replace_absent(c, "npm run"@, "pnpm run"@);
    lemma_replace_absent(c, "npm run"@, "yarn"@);
    lemma_replace_absent(c, "npm run"@, "bun run"@);
    lemma_replace_at_start(e, c, "pnpm start"@);
    lemma_replace_at_start(e, c, "yarn start"@);
    lemma_replace_at_start(e, c, "bun start"@);
    assert("pnpm start"@ + e =~= "pnpm start"@);
    assert("yarn start"@ + e =~= "yarn start"@);
    assert("bun start"@ + e =~= "bun start"@);
}

/// A script run by `npm run` is run by the project's package manager:
/// `npm run SCRIPT` becomes `pnpm run SCRIPT` where `pnpm-lock.yaml`
/// exists, else `yarn SCRIPT` where `yarn.lock` exists, else
/// `bun run SCRIPT` where `bun.lockb` or `bun.lock` exists, and stays as it
/// is with none of them (for a script text that does not mention `npm`).
pub proof fn law_scripts_run_by_package_manager(script: Seq<char>, locks: LockFiles)
    requires
        !contains_seq(script, "npm"@),
    ensures
        locks.pnpm_lock_yaml ==> adjusted_command("npm run "@ + script, locks) == "pnpm run "@
            + script,
        !locks.pnpm_lock_yaml && locks.yarn_lock ==> adjusted_command("npm run "@ + script, locks)
            == "yarn "@ + script,
        !locks.pnpm_lock_yaml && !locks.yarn_lock && (locks.bun_lockb || locks.bun_lock)
            ==> adjusted_command("npm run "@ + script, locks) == "bun run "@ + script,
        !locks.pnpm_lock_yaml && !locks.yarn_lock && !locks.bun_lockb && !locks.bun_lock
            ==> adjusted_command("npm run "@ + script, locks) == "npm run "@ + script,
{
    reveal_strlit("pnpm run ");
    reveal_strlit("yarn ");
    reveal_strlit("bun run ");
    if locks.pnpm_lock_yaml {
        let lead = "pnpm run "@;
        assert(lead.drop_last() =~= "pnpm run"@) by {
            reveal_strlit("pnpm run");
        }
        assert(no_npm_start_inside(lead)) by {
            assert forall|k: int| 0 <= k < lead.len() && #[trigger] lead[k] == 'n' implies (k + 1
                < lead.len() && lead[k + 1] != 'p') || (k + 4 < lead.len() && lead[k + 4] != 's') by {
                if k != 1 {
                    assert(k == 7);
                }
            }
        }
        lemma_run_script(script, lead, "pnpm start"@);
    } else if locks.yarn_lock {
        let lead = "yarn "@;
        assert(lead.drop_last() =~= "yarn"@) by {
            reveal_strlit("yarn");
        }
        lemma_run_script(script, lead, "yarn start"@);
    } else if locks.bun_lockb || locks.bun_lock {
        let lead = "bun run "@;
        assert(lead.drop_last() =~= "bun run"@) by {
            reveal_strlit("bun run");
        }
        lemma_run_script(script, lead, "bun start"@);
    }
}

// ---------------------------------------------------------------------------
// Executable detection
// ---------------------------------------------------------------------------

/// The parsed manifest of `md`.
fn read_manifest(md: &ManifestDir) -> (r: Option<JsonDocument>)
    ensures
        match r {
            Some(d) => parsed_manifest(*md) == Some(d@),
            None => parsed_manifest(*md) is None,
        },
{
    match &md.manifest {
        Some(t) => parse_json_document(t.as_str()),
        None => None,
    }
}

fn dep_exec(doc: &JsonDocument, name: &str) -> (r: bool)
    ensures
        r == dep(doc@, name@),
{
    document_has_key(doc, "dependencies", name)
}

fn uses_react_exec(doc: &JsonDocument) -> (r: bool)
    ensures
        r == uses_react(doc@),
{
    dep_exec(doc, "react") || document_has_key(doc, "devDependencies", "react")
}

fn vite_kind_exec(doc: &JsonDocument) -> (r: String)
    ensures
        r@ == vite_kind(doc@),
{
    if dep_exec(doc, "vue") {
        "Vue + Vite".to_owned()
    } else if uses_react_exec(doc) {
        "React + Vite".to_owned()
    } else {
        "Vite".to_owned()
    }
}

fn package_setup_exec(doc: &JsonDocument, md: &ManifestDir, prefix: &str) -> (r: (String, String))
    ensures
        (r.0@, r.1@) == package_setup(doc@, *md, prefix@),
{
    if md.next_config_js || md.next_config_mjs || md.next_config_ts || dep_exec(doc, "next") {
        ("Next.js".to_owned(), concat_text(prefix, "npm run dev"))
    } else if md.nuxt_config_ts || dep_exec(doc, "nuxt") {
        ("Nuxt".to_owned(), concat_text(prefix, "npm run dev"))
    } else if md.vite_config_ts || md.vite_config_js {
        (vite_kind_exec(doc), concat_text(prefix, "npm run dev"))
    } else if md.nest_cli_json || dep_exec(doc, "@nestjs/core") {
        ("NestJS".to_owned(), concat_text(prefix, "npm run start:dev"))
    } else if dep_exec(doc, "express") {
        ("Express".to_owned(), concat_text(prefix, "npm run dev"))
    } else if document_has_key(doc, "scripts", "dev") {
        ("Node.js".to_owned(), concat_text(prefix, "npm run dev"))
    } else if document_has_key(doc, "scripts", "start") {
        ("Node.js".to_owned(), concat_text(prefix, "npm start"))
    } else {
        ("Node.js".to_owned(), concat_text(prefix, "npm run dev"))
    }
}

fn fallback_setup_exec(f: &ProjectFiles) -> (r: (Option<String>, String))
    ensures
        (opt_view(r.0), r.1@) == fallback_setup(*f),
{
    if f.manage_py {
        (Some("Django".to_owned()), "python manage.py runserver".to_owned())
    } else if f.backend_manage_py {
        (Some("Django".to_owned()), "cd backend && python manage.py runserver".to_owned())
    } else if f.requirements_txt || f.pyproject_toml {
        (Some("Python".to_owned()), "python main.py".to_owned())
    } else if f.backend_requirements_txt {
        (Some("Python".to_owned()), "cd backend && python main.py".to_owned())
    } else if f.go_mod {
        (Some("Go".to_owned()), "go run .".to_owned())
    } else {
        (None, "npm run dev".to_owned())
    }
}

/// Detects a project's name, kind and start command from its directory
/// `dir` and what is on disk there: the first `package.json` that parses
/// decides, else Python and Go files do; the name is the directory's last
/// component.
pub fn detect_project(dir: &str, files: &ProjectFiles) -> (r: DetectedProject)
    ensures
        r.name@ == project_name(dir@),
        (opt_view(r.project_type), r.start_command@) == project_setup(*files),
{
    let name = match file_name(dir) {
        Some(n) => n,
        None => "unknown".to_owned(),
    };
    match read_manifest(&files.root) {
        Some(doc) => {
            let (kind, command) = package_setup_exec(&doc, &files.root, "");
            return DetectedProject { name, project_type: Some(kind), start_command: command };
        },
        None => {},
    }
    match read_manifest(&files.frontend) {
        Some(doc) => {
            let (kind, command) = package_setup_exec(&doc, &files.frontend, "cd frontend && ");
            return DetectedProject { name, project_type: Some(kind), start_command: command };
        },
        None => {},
    }
    match read_manifest(&files.client) {
        Some(doc) => {
            let (kind, command) = package_setup_exec(&doc, &files.client, "cd client && ");
            return DetectedProject { name, project_type: Some(kind), start_command: command };
        },
        None => {},
    }
    let (kind, command) = fallback_setup_exec(files);
    DetectedProject { name, project_type: kind, start_command: command }
}

fn js_project_kind_exec(doc: &JsonDocument, md: &ManifestDir) -> (r: String)
    ensures
        r@ == js_project_kind(doc@, *md),
{
    if md.next_config_js || md.next_config_mjs || md.next_config_ts || dep_exec(doc, "next") {
        "Next.js".to_owned()
    } else if md.nuxt_config_ts || dep_exec(doc, "nuxt") {
        "Nuxt".to_owned()
    } else if md.vite_config_ts || md.vite_config_js {
        vite_kind_exec(doc)
    } else if dep_exec(doc, "express") {
        "Express".to_owned()
    } else if md.nest_cli_json || dep_exec(doc, "@nestjs/core") {
        "NestJS".to_owned()
    } else if uses_react_exec(doc) {
        "React".to_owned()
    } else if dep_exec(doc, "vue") {
        "Vue".to_owned()
    } else {
        "Node.js".to_owned()
    }
}

/// The name and kind of a discovered server's project directory `dir`.
pub fn detect_project_info(dir: &str, files: &ProjectFiles) -> (r: ProjectInfo)
    ensures
        opt_view(r.name) == path_file_name(dir@),
        opt_view(r.project_type) == server_project_kind(*files),
{
    let name = file_name(dir);
    let project_type = match read_manifest(&files.root) {
        Some(doc) => Some(js_project_kind_exec(&doc, &files.root)),
        None => match read_manifest(&files.frontend) {
            Some(doc) => Some(js_project_kind_exec(&doc, &files.frontend)),
            None => match read_manifest(&files.client) {
                Some(doc) => Some(js_project_kind_exec(&doc, &files.client)),
                None => if files.manage_py || files.backend_manage_py {
                    Some("Django".to_owned())
                } else if files.requirements_txt || files.pyproject_toml
                    || files.backend_requirements_txt {
                    Some("Python".to_owned())
                } else if files.go_mod {
                    Some("Go".to_owned())
                } else {
                    None
                },
            },
        },
    };
    ProjectInfo { name, project_type }
}

/// The start command `cmd` adjusted to the package manager of the project:
/// `npm run`/`npm start` become pnpm's, yarn's or bun's where their lock
/// file exists (checked in that order).
pub fn adjust_command_for_package_manager(cmd: &str, locks: &LockFiles) -> (r: String)
    ensures
        r@ == adjusted_command(cmd@, *locks),
        !locks.pnpm_lock_yaml && !locks.yarn_lock && (locks.bun_lockb || locks.bun_lock) ==> r@
            == replace_all_seq(replace_all_seq(cmd@, "npm run"@, "bun run"@), "npm start"@, "bun start"@),
        !locks.pnpm_lock_yaml && !locks.yarn_lock && !locks.bun_lockb && !locks.bun_lock ==> r@
            == cmd@,
{
    proof {
        law_package_manager_command(cmd@, *locks);
    }
    let c = chars_of(cmd);
    proof {
        reveal_strlit("npm run");
        reveal_strlit("npm start");
    }
    if locks.pnpm_lock_yaml {
        let step = replace_all(&c, &chars_of("npm run"), &chars_of("pnpm run"));
        string_from_chars(&replace_all(&step, &chars_of("npm start"), &chars_of("pnpm start")))
    } else if locks.yarn_lock {
        let step = replace_all(&c, &chars_of("npm run"), &chars_of("yarn"));
        string_from_chars(&replace_all(&step, &chars_of("npm start"), &chars_of("yarn start")))
    } else if locks.bun_lockb || locks.bun_lock {
        let step = replace_all(&c, &chars_of("npm run"), &chars_of("bun run"));
        string_from_chars(&replace_all(&step, &chars_of("npm start"), &chars_of("bun start")))
    } else {
        string_from_chars(&c)
    }
}

} // verus!
