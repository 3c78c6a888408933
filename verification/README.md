# poise

Client-side load-balancing policies, health tracking and service discovery,
written in Verus with their behaviour stated as contracts and proved.

- `src/policy/` — selection policies: round robin, smooth weighted round
  robin, least loaded, random and power-of-two choices, rendezvous and
  weighted rendezvous hashing, bounded-load rendezvous, ring hash, Maglev,
  priority failover and locality-weighted selection. Each module states what
  a pick returns and proves the laws of its policy (cycle coverage, exact
  weight ratios, order independence, minimal disruption).
- `src/health/` — circuit breaking, active probing, outcome windows and the
  integer rules of outlier ejection.
- `src/discovery/` — a revisioned membership directory and its snapshots.
- `src/observe/` — decision and attempt events, metrics and observers.
- `src/probe.rs`, `src/load.rs` — probe pools and load accounting.
- `app/` — the parts that need a clock, threads, async runtimes or floating
  point: shared handles, probe runners, snapshot streams and score
  computations built on the library.
- `tests/` — scenario tests of the library.
