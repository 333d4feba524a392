# reo_rs

Building blocks for Reo-style protocols, in which threads meet at ports and a protocol
decides, by its rules, which data moves between ports and memory cells. The library is
written in Verus: its functions carry `requires` / `ensures` contracts that Verus proves.
Where a result rests on something the library cannot see (a random order, a hash map's
order, or the answers of a trait its users implement), the contract says what holds
whatever the answer.

## Layout

- `src/proto/`: protocol definitions and their compilation into runnable rules
  (`compile.rs`), the coordinator that claims ports, tracks readiness and fires rules
  (`runtime.rs`), the messages it sends (`messages.rs`) and port groups (`groups.rs`).
- `src/bitset.rs`, `src/bitfield.rs`, `src/bits.rs`, `src/quatset.rs`: bit sets over
  `usize` and `u64` chunks, with their laws.
- `src/primitives.rs`: a coordinator over byte flags.
- `src/rba_preprocess.rs`, `src/rba_order.rs`, `src/rba_pair.rs`, `src/val.rs`: rule-based
  automata over three variables: composing, merging, hiding ports, simplifying, and
  checking a simplified automaton against the full one; `src/rba_normalize.rs`:
  normalizing and projecting them, a bounded number of rounds at a time.
- `src/rbpa.rs`, `src/rbpa_normalize.rs`: automata over partial memory states, built from
  protocol rules, and their normalization.
- `src/rba_builder.rs`, `src/sketches/rba_builder.rs`: guarded commands, and the closure
  of a state under them.
- `src/tokens.rs`, `src/rba_api_w_roy.rs`, `src/preventative*.rs`, `src/logic.rs`,
  `src/sketches/`: APIs in which zero-sized tokens carry a component's state, so that only
  the moves its automaton allows type-check; `src/sketches/shared_get.rs`: the getter's
  steps in an earlier threaded design.
- `src/reo.rs`, `src/port.rs`, `src/port_backend.rs`, `src/threadless*.rs`: the sequential
  core of ports: memory cells, port cells and their events, claiming putters.
- `app/`: the threaded side: locks, channels and semaphores around the verified
  coordinators, the loops that drive them, and text output.
- `tests/`: tests of the library on concrete values.
