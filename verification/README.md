# bevy_ggrs

Rollback bookkeeping for [GGRS](https://crates.io/crates/ggrs) sessions in a
[Bevy](https://crates.io/crates/bevy) world, verified with Verus.

- `src/` is the verified library.
  - `snapshot` stores snapshots by frame (`GgrsSnapshots`) and by entity
    (`GgrsComponentSnapshot`), keeps the entities that are rolled back in order
    (`RollbackOrdered`), and keeps a history of checksums (`ChecksumDiagnostics`).
  - `schedule_systems` decides what the rollback loop does next: the clock, the updates of the
    three kinds of session, and the frame counts for each request of a session.
  - `derive` works out how a type with `#[rollback(...)]` attributes is registered.
  - `frames` holds the frame counts.
  - `platform_map` holds the contracts of Bevy's hash map, which are trusted. So are those in
    `snapshot/checksum.rs` (seahash), `derive.rs` (syn) and `snapshot/by_name.rs` (comparison of
    strings).
- `tests/` runs the library on concrete values.
- `app/` ties the library to Bevy and GGRS: resources, components, plugins, schedules, the driver of
  the sessions, and the code that the derive macro emits.

Functions named `law_...` state what holds of the library as a whole; each contract is stated over
the views of the types (`SnapshotsView`, `DiagnosticsView` and so on).
