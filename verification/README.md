# libapollo

A library of four protocols for state machine replication (Apollo, Artemis, Sync
HotStuff and OptSync), with the mempool that feeds them, written and verified in Verus.

- `src/` is the library. Each protocol is a state with handlers: a handler takes an event,
  changes the state and leaves the actions that follow in an outbox. The state's view and
  the spec functions on it say what each handler does; the `law_` functions say what
  holds over several steps.
  - `mempool/`: the transaction pool, the batchers, the store cache and the routes of
    confirmations
  - `chain/`: blocks and the tree of delivered and committed blocks
  - `apollo/`, `artemis/`, `synchs/`, `optsync/`: the protocols
  - `client/`, `stats.rs`: clients and what they measure
  - `config/`, `genconfig.rs`, `certs.rs`, `net.rs`: configurations and certificates
  - `stress.rs`: the plan of a benchmark
  - `handlers.rs`: the messages that are on their way
  - `digest.rs`, `hash.rs`, `fnv_map.rs`, `split_map.rs`, `text.rs`: what the rest is
    built on
- `app/` is the program around it: sockets, timers, files, keys and processes. It performs
  the actions of the library and hands it events. It is one program that runs as the
  name says under which it is started (`node-apollo`, `client-apollo`, `genconfig`,
  `stress-test`, ...).
- `tests/` runs the library.
