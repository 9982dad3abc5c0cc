# catenary-router

The session manager of the Catenary daemon: which workspace roots are served,
how long they stay mounted, how hooks and commands are answered, and how a bridge
waits for its daemon. It is written in Rust and verified with Verus.

- `src/` is the library. Every function states what it returns and changes;
  `src/laws.rs` states what holds across operations.
- `app/` is the ordinary program around it: sockets, processes, files and clocks.
- `tests/` runs the library on concrete values.

JSON values are those of `serde_json`. The functions that call it are in
`src/json.rs`, each with the contract that the library relies on; besides these
only `String::push` (`src/text.rs`) and `String::from_utf8` (`src/proxy.rs`) are
taken at their word.
