# sem

The verified core of `sem`, a semantic code-analysis tool: how imports are
resolved to the entities they name, how entity graphs are got from the disk
cache or built, in what order graphs are written, what the `graph` and
`orient` commands do step by step, what the usage telemetry decides, and
what the editor plugin hands back.

## Layout

- `src/` — the library, verified with Verus.
  - `text.rs`, `path.rs` — characters, strings and repository paths, with
    their models over `Seq<char>`.
  - `entity.rs` — entity records and the map from entity id to entity.
  - `import_resolution.rs` — import sources to candidate files and to the
    entity they name.
  - `graph.rs` — the steps of the graph builds (cache hit, incremental
    rebuild, full rebuild, topology and direct-dependency builds) and of the
    `graph` command, each as a function from stage and outcome to the next
    stage and operation, with laws over whole runs.
  - `graph_order.rs` — the stable order of entities and edges in output.
  - `telemetry.rs`, `progress.rs` — the decisions of telemetry and of the
    progress spinner.
  - `orient.rs` — the answers and listing lines of the code search.
  - `plugin.rs` — the plugin's input decoding and entity change records.
- `tests/` — tests of the library.
- `app/` — the files, the terminal, the network and the drivers that run
  the verified steps against a real cache and parser.
