# vedavid-connector

The dashboards that a connector serves: YAML documents read from a mounted
directory, compiled into render trees, held in memory and announced to the relay.
The library is written in Verus, and its contracts are proved.

- `src/dashboards.rs` is the store: what a scan makes of it, the inventory it
  announces and the trees it serves.
- `src/assembly.rs`, `src/compile.rs`, `src/catalog.rs` and `src/entry.rs` make the
  inventory of embedded and mounted dashboards.
- `src/reader.rs` decides which files of a directory are read, and how much of them.
- `src/builtins.rs` embeds dashboards that are compiled beforehand.
- `src/config.rs` holds the settings, `src/text.rs` the handling of text, `src/pb.rs`
  the messages to the relay.
- `src/watch.rs` says what follows each wait for a change, and `src/signal.rs` tells
  subscribers of a change over a tokio channel.
- `src/laws.rs` states and proves what holds of the store as a whole, and
  `src/naming.rs` what holds of the ids that documents declare.

`app/` reads the environment and the directories, calls the compiler of the dashboard
language, watches the mounted directory, and writes down the dashboards that a build
embeds.
