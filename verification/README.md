# lellm_graph

A workflow engine: graphs of nodes over a typed state, with routing along
conditional, plain and fallback edges, parallel branches, barriers at which a run
waits for a decision, graphs within graphs, checkpoints, traces and a log of changes.

The library under `src/` is verified with Verus. It holds everything that decides or
computes, but for the sums and extremes of floating-point numbers, which are in
`app/numbers.rs` and handed to the library as a function. What waits, sends, stores or
runs nodes is in `app/` too, which hands events to the library and performs the actions
that it gets back.

- `state/`: the dynamic state, typed keys, lenses, branches, merging and reducing.
- `graph/`: nodes and edges, building, validation, fingerprints, cycles, diagnostics.
- `node/`: conditions, barriers, parallel branches, inner graphs, models and tools.
- `exec/`: engines, routing, the runs from node to node, decisions, sessions.
- `checkpoint/`: checkpoints, codecs, stores, policies, traces and the log of changes.
- `compiler/`: passes over a built graph.

A run is a value that is asked what to do next. `InlineRun` goes from node to node,
`ExecutionLoop` does so under observation and `ExecutorRun` with checkpoints at chosen
moments. Each step's contract says which events are due, what becomes of the state and
where the run goes.

Laws that span several operations are the public proof functions whose names begin
with `law_`.
