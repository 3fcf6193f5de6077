# qudag_network

The networking layer of QuDAG as a Verus library: peer identities and
messages, secure channels, onion routing, `.dark` domain resolution,
Kademlia bookkeeping, NAT traversal, connection management, circuit
breakers and message chunking. Each public function states in its
contract what it returns or changes, and Verus proves the code meets it.

## Layout

- `src/` is the verified library. Every module holds its types, the spec
  functions that model them, the executable functions with their
  `requires`/`ensures`, and the laws that relate several functions
  (public proof functions whose names begin with `law_`).
- Calls into outside crates (`ring`, `blake3`, `sha2`, `bs58`, `zstd`,
  `chacha20poly1305`, `rand`, `lru`) and into the parts of `std` that Verus
  does not specify go through small trusted wrappers, each with a doc
  comment saying what its contract claims of the outside code. Where a
  result is a function of the arguments but too long to state (a hash, a
  signature, a compressed stream), it gets a name without a body, and the
  contracts speak of that name.
- Functions that read the clock come in two forms: `..._at(now)`, whose
  contract is exact, and one that reads the clock and says what holds for
  the time it read.
- `app/` is ordinary Rust around the library: the tokio tasks, sockets and
  HTTP clients, serde copies of the library's types, the DHT client behind
  the `.dark` resolver, and the floating-point scoring that the library
  leaves to its callers.
- `tests/` runs the library with the real outside crates linked.

## Verifying

Verus verifies the crate rooted at `src/lib.rs`; the tests in `tests/` are
ordinary Rust integration tests.
