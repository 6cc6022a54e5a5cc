# palsave

A library for reading and editing Palworld save files, written in Verus: the
library's functions are proved against their `requires`/`ensures` contracts, and
the few calls into `std` and outside crates go through trusted wrappers (two of
them, which only format a decompressor's error, promise nothing).

## Layout

- `src/container` — the `.sav` container: header sniffing, zlib (`PlZ`) and
  Oodle (`PlM`) payloads. Oodle decompression is supplied by the caller
  (`decode_with`); zlib goes through `flate2`.
- `src/gvas` — the GVAS format: header, property tags, values, and a cursor that
  materializes values lazily.
- `src/rawdata` — the byte blobs nested inside properties (characters, groups,
  item and character containers, dynamic items).
- `src/edit` — byte-level edits: splices that rewrite one subtree and patch the
  size fields around it.
- `src/world`, `src/characters`, `src/guilds`, `src/inventory`, `src/migrate` —
  the views and tasks built on top: players, Pals, guilds, inventories, and a
  survey of what moving a player between worlds would involve.
- `src/synthetic` — small well-formed saves for tests and demos.
- `app/` — the thin unverified shell (wasm bindings, JSON, the Oodle call).
- `tests/` — tests run against the compiled library.

Contracts are stated over spec functions and views (`Seq`, `Map`, `int`); the few
calls into `std` and outside crates that Verus cannot see go through small
trusted wrappers whose contracts say what those functions document.
