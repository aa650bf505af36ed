# raft_engine

A domain-agnostic Raft consensus engine whose decisions are verified with Verus:
elections with an optional pre-vote, log replication, commitment by majority,
snapshots and log compaction, and linearizable reads.

| Part | What it holds |
|---|---|
| `src/types.rs`, `src/tick.rs`, `src/text.rs`, `src/errors.rs` | counters, identities, the logical clock, diagnostics |
| `src/storage.rs`, `src/state_machine.rs` | the interfaces to durable storage and to the application, and a store in memory |
| `src/reconciliation.rs`, `src/quorum.rs` | what it means to follow a leader's log; majorities |
| `src/node/` | the physical node, its role carried in its type |
| `src/engine/` | the logical node: dispatch, role changes, halting |
| `src/consensus/` | campaigns, replication, one beat of the tick loop, compaction |
| `src/orchestration.rs` | applying commands, installing snapshots, confirming leadership, cut into steps |
| `src/config.rs`, `src/peer.rs` | configuration and topology |
| `src/laws.rs` | what holds of the engine as a whole |
| `app/` | files, locks, tasks and the network around the engine |
| `tests/` | tests of the compiled engine |

A node is described by a `LogicalView`; every contract says what a call does to
it. The steps of the protocol keep `LogicalView::upholds`, whether they succeed
or halt the node: the term never falls, a vote lasts for its term, the commit
boundary never moves back, and a halted node stays halted. A few calls promise
less: `transition` and the mutable borrows of a role do what their caller makes
of them, and `advance_horizon_after_snapshot` and `truncate_log_front` report a
store that fails in the middle of a write, so that their caller can halt.
