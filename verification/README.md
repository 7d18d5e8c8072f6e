# dagron-core

The core of a workflow engine whose datastore is its scheduler: validation of
workflow graphs, and every transition of runs, tasks, leases, sensors, datasets,
schedules and events as a verified function on a store of plain rows.

## Layout

- `src/` is the verified library. `workflow`, `rules`, `messages` and `dag` hold
  a workflow to its rules and build its graph; `rows` and `store` are the data;
  `runs`, `advance`, `claims`, `gangs`, `tasks`, `parks`, `reap` and `reruns`
  move a run from its creation to its end; `sources`, `datasets`, `triggers`,
  `schedules`, `outbox`, `records`, `queries`, `retention` and `leadership` are
  what surrounds it. `leases` takes the operations that hold something for a
  number of seconds by the clock. `laws` and `trigger_sweep` state what holds
  across them, as do the `law_` functions of the other modules.
- `order`, `table`, `sweeps`, `text`, `text_map` and `decimal` are what the rest
  is built from: selection and ordering of rows, updates by rule, sweeps that
  take one row after another, and text.
- `app/` is ordinary Rust around it: YAML and JSON, SQLite and Postgres, the
  clock, the environment and the archive directory. An operation there is one
  transaction that loads the store, applies one function of the library, and
  writes back the rows that changed.
- `tests/` runs the library.

Times are RFC 3339 texts in UTC and compare as texts. A function that needs the
time, a lease or a fresh id takes it as an argument.

## What is trusted

chrono's clock, calendar and RFC 3339 text (`time`), petgraph's graph (`graph`),
serde_json's document type (`workflow`) and its reading and writing of small
objects (`records`, `outbox`), and `String::push` (`text`). Each says in its
comment what is taken on trust.
