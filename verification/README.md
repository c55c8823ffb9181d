# constellation_peer

The state of a transaction peer, verified with Verus.

Clients submit transactions to a peer.  The peer has each one committed by a round
of consensus where that is needed, hands it to the processor that is configured for
its class and instance, and tells the clients what becomes of it.

## Layout

* `src/state.rs` holds the peer's tables and the operations on them; `src/model.rs`
  says what the tables hold and how each event changes them.
* `src/peer_xact.rs` is one transaction, `src/seal_entry.rs` one committed round.
* `src/clients.rs`, `src/processors.rs` and `src/consensus.rs` are the sessions.
* `src/component.rs` builds the tables with which a peer starts, from the
  configuration in `src/config.rs`.
* `src/laws.rs` and `src/events.rs` state and prove what holds across operations.
* `src/bits.rs` and two functions in `src/config.rs` are the boundary to the `bitvec`
  and `uuid` crates.
* `app/` puts the state behind a lock and connects it to channels, authenticators and
  buses.

Time is a parameter: whoever calls an operation reads the clock.  How long a retry
policy waits, and whether a range holds a version, are closures that the caller
passes.
