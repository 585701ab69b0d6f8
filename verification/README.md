# star_control

The decision core of Star-Control, a Windows development-control tool,
written in Verus: each function states its behaviour in `requires` /
`ensures` and Verus proves it.

## Layout

- `src/` — the verified library.
  - `json`, `text`, `keyed`, `listing`, `winpath`: the value models the
    rest is stated over (JSON documents and their compact text, strings,
    keyed record sets, sorted string sets, Windows paths).
  - `lifecycle`: the Controller's projection of Codex instances, tasks and
    MCP connections, and when it may shut down.
  - `operation_store`, `approval_store`, `digest`: durable Operation records
    with their event histories and idempotency bindings; approval scopes
    bound by a SHA-256 scope hash and resolved at most once.
  - `concurrency_gate`: exclusive locks and bounded parallelism for
    Operations.
  - `hook`, `hook_reply`, `shell`, `post_tool`: Codex hook input checks,
    the command screening of `PreToolUse`, and the replies.
  - `cli`, `local_options`, `local_command`, `controller_cli`, `pagination`:
    the `star` command line: argument checks, the local commands, the
    Controller commands and their payloads, exit codes, and the merging of
    paged Controller listings.
  - `schema`, `schema_resolver`: the supported JSON Schema subset, defaults,
    argv bindings, instance validation, and the resolution of a package's
    schema files with local, acyclic, bounded references.
  - `autostart`, `authenticode`: autostart ownership and signature policy.
- `tests/` — tests of the library on concrete values.
- `app/` — the `star` host program: file, registry and process work around
  the library, and the Windows API calls.

## What is not here

The Star-Control contracts, application, IPC and adapter crates are not
available to this build, so these parts of the project are absent:

- the Codex task flows (launch, status, interrupt, the launch approval and
  the current-gate checks), which run through the application service and
  the Codex app-server adapter;
- the goal store and the coordination store, whose records, validation
  and seals are contract types;
- the `star` command forms that need the contracts' typed ids (project,
  task, approval, operation, checkout and other ids), fresh request ids,
  the install directory, or JSON plan and argument files.  `controller_cli` reads every other
  command form with its errors, answers the synopsis for words
  that name no command, and returns `None` for these forms; the host
  reports them as unavailable.
- the Controller IPC client: the host shows a parsed request instead of
  sending it, and the hook's lifecycle report is not delivered.

## Checking

Public proof functions named `law_*` state the properties that hold across
calls (what a resolution keeps, what a repeated call returns, what a lock
excludes); the contracts of the other functions state their results.
