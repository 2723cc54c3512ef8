# herdr-spreader

Builds herdr workspaces, with their tabs and panes, from a layout file.

- `src/` is the library, verified with Verus: loading layouts, validating them,
  planning the operations that build them, and carrying a plan out.
- `src/laws.rs` states what holds of layouts, plans and their execution as a
  whole. Laws of a single module stand in that module.
- `app/` is the program around it: arguments, YAML, files, child processes and
  the socket.
- `tests/` runs the library.

Three things are trusted rather than proved: that `serde_json` parses and
writes JSON as `src/json.rs` says, that whoever implements `HerdrBackend` keeps
the history of requests and answers that the trait speaks of, and that the
program answers the loader's questions about the disk truthfully.
