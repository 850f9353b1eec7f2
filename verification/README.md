# comet_parquet

The planner of a Parquet scan. It decides which row groups and rows of a file are
read, in which order, which of them are dropped while the scan runs, and when their
bytes are fetched. Its functions carry contracts that Verus proves.

- `src/` is the planner.
  - `access_plan`, `selection`, `prepared`, `rows`: what is read of a file, down to
    single rows.
  - `row_group_filter`, `inversion`, `bloom`, `columns`: narrowing a plan by limits,
    byte ranges, statistics and bloom filters.
  - `opener`, `open_state`, `filters`, `virtual_columns`, `constants`, `values`: opening
    a file, step by step.
  - `scan`, `decoder_config`, `decoder`, `row_filter`: setting up the decoder.
  - `push_decoder`, `pruner`, `prefetch`, `scheduling`: driving the decoder, with row
    groups pruned and read ahead while it runs, and that reading ahead changes no output.
- `app/` runs the planner inside the query engine: I/O, expressions, metrics and the
  stream of batches.
- `tests/` runs the planner on small files in memory.

The functions marked `external_body` call the Parquet reader and the query engine.
Their contracts are believed, not proved; each says which function it calls.
