# velamq_bench

The decision logic of the VelaMQ MQTT benchmark platform, verified with
Verus: every function in `src/` carries a `requires`/`ensures` contract that
Verus proves, and the laws the platform relies on (round trips, idempotent
normalization, non-overlapping client ranges, allocation totals, counters
that one call undoes) are public proof functions.

## Layout

- `src/model/` — the data of the platform: broker and payload profiles,
  legacy benchmark configurations, agents and distributed runs, runs and
  annotations, with their validation and normalization.
- `src/allocation.rs`, `src/cluster.rs`, `src/aggregate.rs` — how a
  distributed run picks nodes, splits clients and scenarios between them,
  checks agent credentials and sums the nodes' metrics.
- `src/bench.rs`, `src/runtime/` — the benchmark engine's choices: interface
  binding, broker addresses, latency from payload stamps, the metric sampler
  and the per-client session state machine, the connection options a client
  asks for, the steps of a run and of a scenario, and the record of a run
  started from a scenario.
- `src/console.rs`, `src/bundle.rs`, `src/templates.rs`, `src/storage.rs` —
  the API's rules: completing saved profiles, exporting and importing
  bundles, the built-in templates, tag and id rules of the database.
- `src/agent.rs`, `src/connbench.rs` — the settings of a load agent and the
  command line of the connection benchmark.
- `src/text.rs`, `src/decimal.rs`, `src/payload_stamp.rs` — text, decimal
  and payload-stamp primitives with their specifications.
- `app/` — the `velamq-connbench` program: sockets, clocks, tasks and
  output around the library.
- `tests/` — tests of the library on concrete values.

Outside crates (`sha2`, `subtle`, `uuid`, `chrono`, `zip`) are reached from `src/`
only through small trusted wrappers whose contracts state what those crates
document.
