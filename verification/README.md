# minerva_server

The core of the Minerva server: a state cache fed by a simulation engine, and
command dispatch back to it. It is written in Verus; each function states in its
contract what it does, and Verus proves that it does so.

- `src/state.rs`: the state cache. Each write is specified by what it makes of the
  cache (`src/model.rs`) and by the events that subscribers are told.
- `src/commands.rs`: commands, their validation, and the dispatcher that tracks
  them until the engine acknowledges them.
- `src/sending.rs`: the course of one send, from its registration to its end.
- `src/services/`: what each request is answered, and what each subscriber is sent.
- `src/server.rs`: how a server comes up and is stopped.
- `src/proto.rs`, `src/ids.rs`, `src/status.rs`: messages, identifiers, refusals.
- `src/table.rs`, `src/text.rs`: ordered maps and sets of identifiers.
- `src/events.rs`: the events and the tokio channels that carry them.
- `src/laws/`: what holds of the whole. Above all, that a subscriber which was sent
  a snapshot and follows the events since knows the groups as they are.
- `tests/`: the library on concrete values, with the real channels.
- `app/`: gRPC, threads and locks around the library.

What is trusted rather than proved are the contracts of the calls into
`tokio::sync::broadcast` and `tokio::sync::oneshot`: see `src/events.rs` and
`src/commands.rs`.
