# composer

The core of a local daemon that runs multi-agent coding sessions, written in Verus: its
decisions are executable Rust whose contracts are proved.

- `src/` is the verified library.
  - `policy`: what becomes of a shell command; hard denials, rules of the user, reading.
  - `ledger`: events, their numbering, redaction of secrets, records in a ledger file.
  - `sse`, `gateway`, `anthropic`: requests to model providers, and what their event
    streams add up to.
  - `orchestrator`, `turn`: the prompt that a ledger rebuilds to, and the tool loop as a
    state machine.
  - `api`: who may speak to the daemon, and what each command of the human does.
  - `config`, `state`, `cli`: roles, secrets, places on disk, the command line.
  - `jail`, `fs_tools`, `terminal`, `shadow`, `worktree`, `forgeloop_bridge`: the tools.
  - `text`, `table`, `json`: texts, ordered tables and JSON trees as plain values.
- `app/` is the daemon around it: HTTP, files, child processes, and whatever is floating
  point.
- `tests/` runs the library.

What the library takes on trust stands behind small wrappers, each with a comment that says
what it claims: JSON parsing and printing (`serde_json`), word splitting (`shell-words`),
ids (`ulid`), the clock (`jiff`), random bytes (`rand`), and letter case and lossy decoding
of the standard library. Two outside functions have a specification of their own
that is taken on trust too: `String::push` and the copying of a `serde_json` number.
