# epoll_notify

A many-connection epoll experiment: a server that accepts TCP connections and
moves each one into its table of open connections when it sends
`[AUTH]+[id]`, and a client that opens many connections and authenticates
each. The library under `src/` carries proved contracts; `app/` holds the
system calls and the loops that drive them.

- `src/text.rs` — splitting and joining character sequences, with the laws
  that relate the two.
- `src/protocol.rs` — the AUTH / TEXT / CLOSE wire format, its reader and
  writer, and the law that a sendable message reads back.
- `src/epoll.rs`, `src/event.rs`, `src/net.rs` — epoll interest descriptors,
  readiness flags, and socket addresses as plain values.
- `src/server.rs` — the server's decision per readiness event, the summary of
  a burst of reads, and the connection table with its laws.
- `src/client.rs` — the client's decisions on `connect` and on readiness of a
  pending connection.
- `app/` — `server`, `client <n_connections>`, and the first single-event
  listener (no argument).
