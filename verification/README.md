# meshguard

A WireGuard mesh whose peers are addressed by their NodeId. One 32-byte ed25519
seed is a node's whole identity: the NodeId (its ed25519 public key), the
WireGuard static keypair (X25519, derived from the same seed, so that a peer
computes our WireGuard key from our NodeId alone) and a deterministic overlay
address in `10.0.0.0/8` all come from it.

Layout:

- `src/` — the verified library (Verus).
  - `identity.rs` — key and overlay-address derivation, NodeId text encoding and parsing.
  - `keys.rs` — the cryptographic and encoding primitives taken from sha2,
    ed25519-dalek, curve25519-dalek, x25519 (through boringtun), data-encoding and rand.
  - `tunnel.rs` — building a boringtun tunnel and deciding, turn by turn, what goes
    to the network and what goes to the packet sink.
  - `wg_config.rs` — configuration from environment values, and the system commands
    that apply it.
  - `cli.rs` — the command line.
  - `config.rs` — what a stored seed file holds.
  - `text.rs`, `addr.rs`, `error.rs` — text handling, IPv4 addresses, errors.
  - `transport/iroh.rs` — parsing a NodeId text into an iroh NodeId.
- `app/` — the program: the asynchronous engine loops, transports, channels,
  files, environment and system commands.
- `tests/` — tests of the library.
