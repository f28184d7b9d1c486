# chat-compressor

A WebSocket chat server (names, rooms with replayed history, direct messages,
JSON image relay) and its load tester, with the decision logic verified by Verus.

- `src/` is the verified library. `server::ChatServer::handle_text` takes a line
  from a client and returns the messages to send; its contract is the model in
  `chat::step`, and `laws` proves properties of that model (room isolation,
  history cap, replay of the latest lines, what questions and disconnections
  change). `loadtest` holds the load tester's batching, retry policy, expected
  delivery counts and benchmark-line format, with their own laws.
- `app/` is the unverified shell: the Tokio listener, one task per client, the
  locks and sockets, and the load tester's network runs and JSON reports.
  `chat-compressor` runs the server on `0.0.0.0:8080`;
  `chat-compressor load_tester <mode>` runs the load tester.
