# praxis

The back end of a desktop app that teaches programming through local
projects: it loads courses, checks a learner's Python environment, runs
their server, runs each chapter's HTTP and database tests against it, and
keeps their progress.

`src/` is the verified library, written in Verus. Every function states in
its contract what it returns, and the laws of the library (what a read
gives back after a write, the order of the course list, the cap on kept
server output, the containment of database paths, …) are public proof
functions.

- `json`, `text`, `path`: JSON values, text and path helpers.
- `assertion`: the body-assertion engine (`$eq`, `$gt`, `$contains`, …).
- `template`: `{{variable}}` interpolation and captures.
- `runner`: a chapter's test run as a state machine.
- `db`: SQL parameterization, row checks and where a database may lie.
- `course`, `environment`, `server`, `progress`, `http`: course manifests,
  interpreter and virtual environment detection, server supervision, the
  progress file and manual requests.
- `error`: the error type.

`app/` holds what the library leaves to ordinary Rust: file, process and
network I/O, SQLite and zip access, and the serde forms of the library's
types. `tests/` exercises the library on concrete values.
