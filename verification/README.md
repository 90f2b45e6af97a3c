# hydr

A TCP and UDP proxy over QUIC and WebSocket: wire format, session logic and policy as a
library verified with Verus, and a thin program around it.

## Layout

- `src/` — the library. Every function carries its contract; the `law_*` proof functions
  state what holds across functions.
  - wire format: `varint`, `wire`, `bytes`, `address`, `ip`, `frame`, `message`, `fragment`
  - secrecy: `auth` (password proofs and nonces), `obfuscation`, `tls` (fingerprints, pins,
    certificates)
  - sessions: `mux` and `connection` (one WebSocket connection), `flow` (credit), `ws`, `quic`
  - ends: `server`, `udp`, `client`, `socks5`, `udp_relay`, `dial`, `config`, `cc`, `metrics`
  - `outside`: the calls into other crates, with what is believed of each
- `tests/` — scenarios on concrete values.
- `app/` — `hydr server` and `hydr client`: sockets, files and tasks around the
  library.

## Use

    hydr server --config server.yaml
    hydr client --config client.yaml

The server prints the SHA-256 fingerprint of its certificate; a client that has it in
`fingerprint` accepts no other.
