# orbis

The core of the Orbis individuality pallets as a Verus-verified Rust library.

- `src/` is the library. Every executable function carries a `requires` /
  `ensures` contract that Verus proves, and the `lemma_*` proof functions state
  the laws that hold across calls.
  - `labels`: person, lite-person and DNS label formats.
  - `big_endian`: 32-, 64- and 256-bit integers encoded most significant byte
    first, so that byte order is numeric order.
  - `reality`: ring exponents and capacities, ring mutation sessions, and the
    shared types of the member collections.
  - `ring_root`: ring-root updates and their batches.
  - `names`, `names_index`: the names registry (commit-reveal registration,
    hierarchy, records, content publication) and its invariant.
  - `notifier`: the ring-root notifier that pages, seals and distributes ring
    roots to subscriber chains.
  - `members`: self-inclusion of a queued member into a collection.
  - `pgas`: fees paid in PGAS, which are burned.
  - `genesis`: the ring builder parameters and the hashes of their pages.
  - `weights`, `names_api`, `scale`, `hashing`, `table`, `keyed`: call weights,
    runtime API types, SCALE encodings, hashes and the keyed tables the state
    is kept in.
- `tests/` runs the library on concrete values.
- `app/` holds the SCALE codec and type information of the storage key types.

Verify with Verus on `src/lib.rs`.
