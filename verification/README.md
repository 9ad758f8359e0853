# quent

Validation and analysis of application event models and of the telemetry
that instrumented applications emit. The library's functions are verified by
Verus against their contracts; the few calls into the standard library,
`petgraph`, `uuid` and `http` stand behind trusted wrappers (marked
`#[verifier::external_body]`), whose contracts are taken on trust.

- `src/schema.rs` — the parts of an application event model that the
  validators read.
- `src/fsm/` — the finite-state-machine constraint of an entity: its checks
  (`check.rs`, stated in `spec.rs`), the schema-wide validation
  (`constraint.rs`), and the lowering of FSM states to an entity
  (`builder.rs`).
- `src/convention/` — conventions and their validator.
- `src/constraints.rs` — helpers shared by constraint implementations.
- `src/graph.rs` — reachability and strongly connected components, computed
  by `petgraph`.
- `src/collector/` — the collector's binary wire format (`wire.rs`), the
  client's batching and connection attempts (`client.rs`), and the service's
  reading of a source's stream (`server.rs`).
- `src/handle.rs` — the once-flags and dynamic FSM states of entity handles:
  the decisions that generated handles rest on. Generating the handles' code
  is not part of the library.
- `src/analyzer/` — the Reference Tree, resources and their hierarchy, and
  the index of runtime contexts.
- `src/events.rs`, `src/exporter.rs` — event types and exporter options.
- `app/` — the runtime around the library: the gRPC codec, client and
  stream reader, the JSON form of FSM topologies, displayable errors, and
  dynamic attributes.
- `tests/` — tests of the library.
