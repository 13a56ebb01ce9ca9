# runkernel

A code-native task graph engine for build, ops and deployment workflows, with its command line.
A pipeline holds named tasks; their dependencies form a DAG that is validated before a run;
independent tasks run concurrently; deterministic cache hits are skipped; every task ends with
a structured result; lifecycle events are reported; tasks pass typed outputs to the tasks that
depend on them; failure and rollback policies decide what happens after a failure.

The library under `src/` is written in Verus, and its functions carry contracts that Verus proves:

- `task`, `pipeline`: tasks, their builders, and pipelines that hold each task once by name.
- `graph`: validation (missing dependencies, cycles), execution order, dependency closure,
  the exported graph, DOT, and task explanations.
- `run`: the scheduler, a state machine fed with task outcomes that says what to start, publish,
  roll back, cancel and skip; results and the run summary.
- `execute`: the steps of executing one task around the cache.
- `cache`, `digest`, `paths`: cache locations, task identities (SHA-256 over the task's
  declaration and what its inputs read as), ignored paths, lookups and stored entries.
- `outputs`: the store of task outputs, readable once the writer has completed.
- `cli`, `render`, `protocol`: the command line's commands, manifest validation, workflow
  selection, the Cargo invocation, text renderings, and the `__runkernel` protocol.
- `rote`: the `rote` engine's tasks, cache, events and pipeline, on the same scheduler.
- `fmt`, `text`: decimal and `Debug` renderings, string order and sorting.

`app/` is the program around the library: argument parsing, reading manifests and files,
expanding globs, spawning processes and async tasks, serialization, and printing.
