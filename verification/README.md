# flowspec

A runtime for flows: graphs of steps that run as jobs on a runner, with fan-out
and gates, retries, failure routes, approvals by a human, hooks and timeouts.
Runs are kept in a store and survive a restart.

`src/` is the library, verified with Verus. It decides; it performs no I/O.

- `flow/`: flow definitions, their graph and their validation.
- `template`, `json`, `maps`, `text`: the values that templates work on.
- `run/`: the engine, from a flow, a run's state and an event to commands.
- `scheduler`, `hooks`, `recovery`: from commands to writes, jobs to start and
  jobs to cancel; the course of hooks; what a restart does with the runs it finds.
- `store`, `rows`, `ports`: runs in memory, runs as rows of tables, and the
  records both keep.
- `use_cases/`: starting, approving, cancelling and asking about runs.
- `devkitd`, `platform`, `flows`, `flow_source`, `config`, `tool_failure`,
  `wire`, `names`, `ids`: the decisions at the edges.

Every function says in its `ensures` what it returns, over the models of its
arguments (`FlowModel`, `RunStateModel`, `RunRecordModel` and so on). What holds
across functions is stated in public proof functions, many of them in the
`laws` files.

Calls into other crates stand behind small wrappers whose contracts are taken
on trust: `serde_json` in `json`, `indexmap` in `maps`, `semver` in
`flow_source`, `time` in `wire`.

`app/` is the program around the library: the database, the HTTP clients, the
tool server and the tasks that carry out what the library decides. `tests/`
drives whole runs with a runner that follows a script.
