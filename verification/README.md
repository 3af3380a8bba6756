# agent_loop

A single-run orchestrator for `bd` tracker tasks. One run makes sure the
memory service (`hindsight`), the memory bank and the tracker are ready, takes
a bootstrap task or claims a ready one, asks the model for a product storm and
a spec, creates child tasks (deduplicated, within the spawn cap, blocking the
parent where asked) and hands the external agent an iterative command plan:
the RED/GREEN/REFACTOR cycle, the cargo quality gates, the acceptance criteria,
the small children to finish inline and the iteration budget. The loop does not
run project commands itself.

Each collaborator client of the library (tracker, memory service, memory bank,
model) keeps a log of the calls made to it, with what each returned. The contract of `run_once` says
exactly which calls a run makes, in order per collaborator, and what it returns,
given what each call returned: in particular that a child is created only after
a duplicate search that found nothing, that a blocking child is made to block
its parent, that a task with a parent gets no children, and that a dry run
claims nothing, creates nothing and records neither notes nor a summary.

Layout:

- `src/` — the library, verified with Verus.
  - `loop_runner.rs` — run settings, the collaborator traits, the plan and `run_once`.
  - `evaluator.rs` — done/rework/needs-human decisions and the action after an iteration.
  - `config.rs` — run options, model/bootstrap/gate resolution, credentials.
  - `contracts.rs` — tasks, candidates, storm/spec/review outputs, gates, outcomes.
  - `adapters/` — the `bd` and `hindsight` command-line clients, cargo gates,
    the memory bank over a file system, and the Responses-API client, which
    falls back to fixed answers without a key or a usable answer.
  - `json.rs`, `text.rs`, `error.rs` — JSON values, string helpers, the error type.
- `app/` — the `agent-loop` program: command line, process spawning, file
  system access, the HTTP transport to the model, and JSON forms of the library's values.
- `tests/` — tests of the library.
