# sqlwire

The client side of the PostgreSQL wire protocol, without a socket, and the shape
of SQL queries that come over HTTP. The library decides what to send and what
the bytes that arrive come to; whoever uses it reads and writes.

- `src/wire.rs`, `src/frontend.rs`, `src/params.rs`: what goes to the server,
  byte for byte, and the order in which parameters are bound.
- `src/reply.rs`, `src/backend.rs`: how the server's bytes are cut into frames,
  and what the frames say.
- `src/sasl.rs`, `src/handshake.rs`: from the startup message to the first
  "ready for query", with SCRAM-SHA-256 where the server asks for it.
- `src/postgres.rs`, `src/address.rs`: connections, statements and their rows.
- `src/http/types.rs`, `src/query.rs`, `src/base64_text.rs`: HTTP queries.
- `src/buffer.rs`, `src/text.rs`: the receive buffer, and texts for errors.
- `app/`: the TCP socket and serde around the library.

Some functions cannot take every value: an address without a port, a parameter
that has no encoding, a message out of place. Their `requires` says which. What
tests for it is `Connection::checked_connect` for `connect`, while what `from_url`
asks for is seen in its argument; `Connection::checked_execute` for `execute`; `sort_if_bindable` for
`send_bind_params` and `bind_message`; `checked_step` for `Handshake::step` and
`Preparing::step`; and `Awaited::takes` for what waits for a reply.

The proof functions whose names begin with `law_` state what holds across
functions. What is taken on trust of other crates stands in functions marked
`external_body`, each with what it claims. The library computes frame lengths in
`usize` and is meant for machines on which that has 64 bits.
