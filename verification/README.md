# raft-engine-strings

A library for inspecting raft-engine WAL directories written by GreptimeDB, verified with
Verus, and the `wal-reader` program around it.

- `src/` is the verified library. `cli` parses the command line, `wire` and `varint` read
  protobuf fields out of raft entries, `text` extracts readable strings from raw bytes,
  `hex` and `decimal` write bytes and numbers as text, `wal` decodes GreptimeDB `WalEntry`
  payloads into JSON documents, `ipc` checks and decodes the Arrow IPC bodies of bulk entries, `records` builds the output records and their plain-text and
  JSON renderings, and `namespaces` lists the raft groups of a directory. Calls into
  prost, greptime-proto, arrow-flight, arrow-json, serde_json, chrono and std go through small
  trusted wrappers whose contracts are stated next to them.
- `app/` is the program: it opens the raft-engine directory, reads entries and raw messages,
  serializes documents with serde_json and writes the output.
- `tests/` runs the library on concrete inputs.
