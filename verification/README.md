# mqtt_broker

An MQTT 3.1.1 broker whose protocol logic is written in Verus and proved
against its contracts.

## Layout

- `src/` — the verified library.
  - `codec/` — the wire format: variable-length integers, fixed headers and
    all fourteen packet types, with encode/decode round-trip laws.
  - `topic_matcher/` — topic name and filter validation, wildcard matching
    and the subscription trie.
  - `session/` — packet identifiers, QoS 1/2 flows, the connection state
    machine and per-client session state.
  - `router/` — the subscription registry, retained messages and message
    routing.
  - `persistence/` — session and message store traits with an in-memory
    store.
  - `server/` — connected clients and the packet handler that turns one
    incoming packet into the broker's response.
  - `transport/` — stream framing of packets over a byte buffer.
  - `clients.rs` — the decisions of the command-line consumer and producer:
    acknowledgements, the message limit and the QoS handshake.
  - `buf.rs`, `clock.rs`, `strings.rs` — the few calls into `bytes` and
    `std` that the logic needs, each with the contract it is trusted for.
- `tests/` — tests of the library on concrete values.
- `app/` — the executable around the library: TCP listener, Tokio tasks,
  command-line tools and the asynchronous store adapters.

## Checking

`src/` is verified with Verus; the tests run with `cargo test`.
