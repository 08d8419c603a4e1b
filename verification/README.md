# dwbase

An agent-first memory store: workers submit immutable atoms to worlds; atoms are kept in an
append-only log, ranked and recalled in answer to questions, and replicated between nodes.

- `src/` is the library. Its behaviour is stated in contracts that Verus proves: the atom model
  and its stored form, the sled-backed log with checksums, encryption and repair, the engine
  (remembering, asking, quarantine, conflicts, retention, world status), swarm membership,
  Bloom filters and messages, replication over a publish/subscribe bus, and the configuration
  component.
- `tests/` runs the library with its outside crates.
- `app/` is the node around it: the HTTP API, the configuration file, buses and sockets, and
  what is computed in floating point.

The components of an engine, and the bus of a node, are given by the user through traits. Each
has a history of the calls made on it, with arguments and replies; a contract says which calls
an operation makes, no more and no fewer, and what follows from whatever came back. Where a
result rests on the database, the clock or chance, the contract says that the outside function
was called and gave it.

Single-precision numbers are held by their bit patterns. Readings of clocks, and the scores
that are computed in floating point, are handed to the library by its callers. What the
library takes on trust from outside crates stands in the functions marked as external, each
with the outside function that it calls.
