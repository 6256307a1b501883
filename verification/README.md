# gun

A graph database that keeps replicas in step by the state of each property, written in
Verus. The library under `src/` holds the logic, each function with a contract that Verus
proves; `app/` is the asynchronous instance around it (storage on disk, WebSocket peers,
the mesh loop and the SEA entry points over `serde_json` values).

Layout of `src/`:

- `json`, `strmap`, `text`, `parse`: JSON values, string-keyed maps and text helpers.
- `valid`, `state`, `graph`: which values are stored, the state clock, nodes, and the
  merge of nodes by state.
- `dup`, `events`: message deduplication and event listeners.
- `gun_core`, `chain`, `put`, `read`: the core of an instance, chains, writes and reads.
- `dam`, `wire`: the mesh (peers, screening and delivering messages, framing) and the
  messages an instance sends.
- `sea`: key pairs, signatures, encryption, proof of work, users and certificates.
- `webrtc`, `gun`: WebRTC options and signalling decisions, instance options.
- `crypto`, `clock`: the calls into hashing, encoding, signature and clock crates.
- `laws`: properties that span several functions.

Direct WebRTC connections are not part of `app/`: the crate they need is not among the
crates this project builds with.
