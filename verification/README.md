# secure_keyspaces

Secure, versioned cells over an ordered key-value store, verified with Verus.

A cell is `(row, family, qualifier, visibility)`, and each of its versions has a
timestamp. Reads need a session: the permission handler decides whether the
session may read at all, and the visibility expression of each version decides
whether its labels allow to see it. Values can be encrypted, decisions are
audited, and retention is applied while the store compacts.

## Layout

- `src/` is the verified library. It performs no I/O: operations answer with
  requests (`PointRead`, `RangeRead`, `Mutation`, `OpenKeyspace`, `TxEnd`), and
  scans, fetches and deletions consume what the storage engine replies.
  - `composite` – ordered key encoding and prefix ranges
  - `cell`, `scan` – versioned cells, scans and deletions of raw keyspaces
  - `visibility` – expressions: grammar, meaning, canonical form
  - `crypto` – value encryption and its stored form
  - `policy` – retention and the compaction filter
  - `audit`, `providers` – audit sinks, authentication, permissions, labels
  - `access` – secure reads and writes once permission has been decided
  - `keyspace`, `tx` – databases, keyspaces and transactions
  - `storage`, `naming`, `order`, `error` – requests, names, byte order, errors
- The `laws` modules state what holds of the library as a whole, as proof
  functions over the specifications that the contracts use.
- `app/` runs the library on an LSM-tree engine: clock, compaction hook, logging.
- `tests/` runs the library on a small in-memory engine.

## Providers

Authenticators, permission handlers, authorizors, audit sinks and encryption
providers are traits for applications to implement. Nothing is assumed of an
implementation: contracts say with what a provider was called and what is done
with each possible answer. They do not say how often a provider is called.
