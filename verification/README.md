# entangled_net

The deciding parts of a game proxy's networking, verified with Verus.

- `src/message.rs`, `src/classify.rs`: messages, whom they go to, and the category that
  each is counted under.
- `src/clock.rs`, `src/traffic.rs`, `src/ranking.rs`, `src/diagnostics.rs`: reliable
  traffic per peer and category over the last ten seconds, reports on it, and pings.
- `src/framing.rs`, `src/message_socket.rs`: length-prefixed frames, and what the two
  threads of a message socket do next.
- `src/fx.rs`: what is taken on trust of `rustc_hash`'s maps.
- `src/history.rs`: series of calls on diagnostics.
- `src/classify_laws.rs`, `src/traffic_laws.rs`, `src/report_laws.rs`,
  `src/diagnostics_laws.rs`, `src/history_laws.rs`, `src/stream_laws.rs`: what holds over
  several calls.

`app/` puts the library on real clocks, sockets and threads, and encodes messages with
`bitcode`.
