# redis_commands

The command layer of an in-memory key-value server, verified with Verus.

- `src/` holds the commands and what they rest on: byte strings and numbers, the
  keyspace, the stream and JSON data structures, requests and replies on the wire,
  and the state machines of persistence and replication. Every command states in
  its contract what it answers and what it changes; functions named `law_...` state
  what holds of several of them together.
- `app/` holds what touches the outside world: the clock, floating point, files,
  processes, sockets and threads.
- `tests/` runs the commands on concrete values.

Trusted are the calls into `serde_json` (`json_data.rs`, `json_text.rs`) and the
test whether bytes are UTF-8 (`plain_text.rs`).
