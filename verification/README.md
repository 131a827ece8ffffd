# block_prover

The decisions behind proving blocks, written in Rust and verified with Verus.

- `src/` is the library. `ancestors` orders and checks the headers that lead back
  from a block, `host_executor` and `execution` make the input that a client
  executes a block from, `guest` reports the hash of an executed block. Block proofs
  are folded into one running aggregate by two workers: `aggregation` says what goes
  into an aggregate, `preparer` and `aggregator` are the workers, and `pipeline`
  states what holds of the two together. `db`, `loading`, `status` and `zk` hold what
  is written to the store, how it is read back, and the proofs themselves. `hash` and
  `header` hold the three calls that leave the library: the Keccak-256 digest, and
  the RLP decoding and encoding of a header.
- `app/` is the service around it: the command line, the channels, the store, the
  node and the prover.
- `tests/` runs the library on concrete values.

The library never waits and never talks to a service. Where the service alternates
work outside with decisions, the library is a step function from where it stands
and an answer to where it stands next and what to do.
