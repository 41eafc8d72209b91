# jade_core

The rules of Jade, a local-first personal toolkit (tasks with recurring
schedules, a markdown wiki, peer-to-peer task sync), written in Verus with
their contracts proved.

## Layout

- `src/` — the verified library.
  - `store.rs`, `tasks.rs`, `tags.rs`, `events.rs`: the task store as plain
    values (rows, tags ordered by folded name, an append-only event log) and
    the operations on it: create, update, complete with recurrence, reschedule,
    delete, tag upkeep, event listings.
  - `sync.rs`: applying events received from peers (idempotent by event id,
    last writer wins), batch order, cursors, listener settings.
  - `cron.rs`, `time_helpers.rs`, `ids.rs`: calls into `croner`, `chrono` and
    `uuid`, each behind a small trusted wrapper whose contract says what the
    crate promises.
  - `wiki/`: front matter splitting, reading and writing (through
    `serde_yaml`), coercion, decoding and repair, what indexing reads from a
    file (hashed with `sha2`), search ranking, link extraction, markdown stripping for snippets, search
    classification, index decisions.
  - `install.rs`, `update.rs`: install channel detection and update decisions.
  - `cli.rs`, `help.rs`, `help_topics.rs`, `output.rs`, `history.rs`: the
    rules the command line reads arguments and prints results by.
- `tests/`: runtime tests of the library.
- `app/`: the `jade` command line: argument parsing, SQLite storage, HTTP,
  file walking and the JSON codec, calling the library for every rule.
