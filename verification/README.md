# devpilot

A dashboard for local development servers: it finds the servers listening on
ports 3000–9999, groups the front end and back end of one project, recognises
what kind of project a directory holds and how to start it, and keeps a
registry of known projects that it can start and stop.

The library in `src/` is written in Verus; every function there carries a
contract that Verus proves.

- `text.rs` – text as sequences of characters: lines, words, trimming,
  searching, replacing, decimal parsing, hexadecimal formatting.
- `paths.rs` – file names, parents and joins of paths.
- `json.rs` – the members of a `package.json` that detection reads.
- `detect.rs` – project kind, start command, package manager.
- `scanner.rs` – the listener table, process listings, grouping by project,
  the servers to show (ordered by port).
- `registry.rs` – adding, removing, finding, syncing and refreshing projects,
  with the ports they prefer.
- `process.rs` – the search for a free port, log files, the steps of stopping.
- `clock.rs` – the wall clock behind project identifiers.

`app/` holds the desktop application around the library: the commands the
interface invokes, running `lsof`, `ps` and `kill`, reading and writing files,
and the window. `tests/` exercises the library on concrete values.
