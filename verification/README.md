# snarkos_router

The peer bookkeeping of a snarkOS node, verified with Verus.

- `src/` is the library. `router` holds the state of a router, `pool` the pool of known peers and
  the rules of connecting to them (`PeerPoolHandling`), `peer` the peers and their status,
  `ranking` the choice of the peers that are worth remembering, `cache_file` the text form of the
  peer cache, `network` the bootstrap peers, `resolver` and `table` the lookup structures, and
  `address` the addresses. `laws` states what holds of a router whatever is asked of it.
- `app/` is the shell around it: locks, tasks, the disk, the clock, and the services of the node.
  The TCP stack, the ledger and the messages are crates of the node's own workspace, on which the
  router does not depend; the node hands them in through the `Services` trait. What they decide,
  such as which addresses are bogons and which message versions there are, the library takes as
  arguments.
- `tests/` runs the library.

The library trusts three facts about the `snarkvm` crate, the ids of mainnet, testnet and canary;
they stand in `src/network.rs`. All else is proved.
