# devenv_tasks

The decisions of a task runner with a correctness-first cache, verified with
Verus. A cache entry is committed only after a successful run, validation of the
outputs and a second look at the inputs; a lock per task spans lookup, execution
and commit.

- `src/run.rs` is a run as a machine: it is told what happened and answers with
  what to do next. `src/history.rs` proves what holds of every run.
- `src/task_cache.rs`, `src/definition.rs`, `src/paths.rs` and `src/snapshot.rs`
  say what a cache entry depends on and when it still holds; `src/listing.rs`
  proves what the listing of a directory tells.
- `src/exports.rs`, `src/outputs.rs`, `src/completion.rs`, `src/environment.rs`
  and `src/shell.rs` carry variables from one task to the next.
- `src/process.rs` configures process tasks.
- `src/text.rs`, `src/strmap.rs` and `src/json.rs` hold strings, maps with string
  keys and JSON values.
- `app/` touches files, processes and the database, and runs the machine.

Calls into other crates stand in small functions marked
`#[verifier::external_body]`; their contracts are what the proofs rest on.
