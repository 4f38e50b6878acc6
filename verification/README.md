# vbf — verified layer-0 data model

`vbf` is the layer-0 data model of a battlefield simulation framework,
written in Verus. Every function in `src/` carries a contract that Verus
proves, except a few trusted wrappers around calls into the `uuid`,
`serde_json` and standard-library formatting code, whose contracts state
what those calls do and are taken on trust.

## Layout

- `src/types/` — keys, display names, identities (UUIDv7), integer
  quantities, simulation time, event sequences and state revisions.
- `src/schema/` — component schemas, JSON payloads, field constraints,
  payload validation and the schema registry.
- `src/entity/` — entity classes, components bound to exact schema
  versions, definitions with single inheritance, entities, and their
  catalogs.
- `src/relationship/` — relationship schemas with roles and rules,
  relationships with half-open validity intervals, validation of one
  relationship and of every relationship in force at an instant
  (role exclusivity, slot capacity).
- `src/event/`, `src/store/` — events, primitive state mutations, atomic
  transactions, the commit of events to an in-memory store.
- `src/spatial/`, `src/information/`, `src/package/`, `src/compiler/` —
  spatial primitives, information records, package manifests, and the
  compilation of a package into its initial world state.
- `src/ordered_map.rs`, `src/keyed.rs` — the ordered map every index is
  built on, and catalogs indexed by identity and by key.
- `app/` — the command line (`version`, `new-entity-uid`, `help`), unit
  conversions through floating point, and JSON forms of library types.
- `tests/` — tests run against the compiled library.

## Main guarantees

- A `Key` or `DisplayName` always obeys its rules; an identity is never nil.
- Payload and relationship validation return exactly the issues their
  specifications list, in order.
- A transaction applies every mutation and steps the revision, or changes
  nothing; a commit keeps the history numbered without gap, free of
  duplicates, and ordered in time.
- Definition resolution yields a cycle-free lineage of one class, in which a
  child's components replace its parent's.
