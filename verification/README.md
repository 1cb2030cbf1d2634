# disintegrate

An event-sourcing library whose core is verified with Verus: stream queries over an event
stream, the states and decisions built on them, and the SQL that the PostgreSQL backend
runs for them.

## Layout

- `src/` — the verified library.
  - `identifier`, `domain_identifier`, `domain_id`: identifiers and the key-ordered sets of
    domain identifiers that events carry.
  - `event`: the `Event` trait, event schemas (the streams of an event type, and the sorted,
    duplicate-free domain identifiers of a schema) and persisted events.
  - `stream_query`: filters and queries over the event stream, what they match, and the
    laws of union, origin and exclusion.
  - `state`, `decision`, `testing`: states, state parts and their groups of one to five parts
    (each part over the group's event type or a sub-stream of it), decisions, and the
    given-when-then harness.
  - `filter_expr`: filter expressions (`eq`, `and`, `or`) over domain identifiers, and
    whether an event satisfies one.
  - `serde`: the serializer traits that payload formats implement.
  - `postgres`: SQL criteria (inline and bound), the inserts of events, the update of
    domain identifier columns, snapshot keys and IDs, migrations, and the decisions of the
    event listeners (checkpoint, progress, retry, wake-up).
  - `text`, `utils`: decimal rendering, joins, and the byte-wise string order.
- `tests/` — tests of the library.
- `app/` — the asynchronous and database side: the event store, state stores, snapshotter,
  listeners and migrator on PostgreSQL, the decision run, and the payload formats (JSON,
  MessagePack, Prost, Protobuf, Avro).
