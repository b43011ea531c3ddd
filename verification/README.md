# codegraph

Method-level call graphs for C# codebases: methods are nodes, calls are
directed edges, and a desktop front end shows a method's callers and callees.
The Roslyn work runs in a managed helper process that prints a JSON graph
document; this crate holds everything that decides what happens around it,
verified with Verus.

## Layout

- `src/domain.rs`: method identifiers, nodes, call relationships and the
  `MethodGraph`, modelled as a `GraphModel` (nodes and edges in order) with a
  well-formedness invariant: unique identifiers, no self-loops, no dangling
  or duplicate edges.
- `src/dto.rs`: the helper's document and its conversion to a domain graph.
- `src/solution.rs`: reading `.sln` and `.csproj` text, and choosing what to
  load from a directory.
- `src/bridge.rs`: locating the helper (override, installed bundle,
  development tree) and accepting its output.
- `src/analysis.rs`: merging per-project graphs and the progress events of
  a load, as a step-by-step `AnalysisRun`.
- `src/service.rs`: the open graphs per project, lookups, callers and
  callees sorted by display name, search over method source spans, and
  reading and replacing a method's source.
- `src/text.rs`: character-level helpers (trimming, line splitting,
  joining, decimal formatting, ordering) stated over `Seq<char>`.
- `app/`: the desktop program around the library: SQLite project list, file
  reads and writes, file watching, running the helper, serde shapes and the
  Tauri commands.
- `tests/`: tests of the library on concrete values.
