# ClanTrail

An offline-first record of a family's graves: clans, their burial grounds,
graves with their coordinates, the people buried in them (and living
relatives), photos, kinship relations (spouse, son, daughter), searches,
reminders of death anniversaries by the lunar calendar and of the traditional
festivals, and backups.

## Layout

- `src/` — the library, verified with Verus.
  - `models.rs`, `error.rs` — the records and errors.
  - `store.rs`, `db.rs` — keyed tables and the store that holds them
    (`ClanTrailDb`), whose keys stay unique.
  - `clan.rs`, `grave.rs`, `member.rs`, `image.rs`, `graph.rs`, `search.rs` —
    the operations on the store, each with a contract over the store's
    contents (`DbView`).
  - `calendar.rs`, `reminders.rs` — dates and the reminders of a window of
    days.
  - `upload.rs`, `service.rs`, `backup.rs`, `seed.rs` — the rules of the HTTP
    service: checks of uploads, paging, answers to errors, allowed origins,
    backup names and the sample data.
  - `sort.rs`, `text.rs` — stable ordering by keys, and texts.
  - `laws.rs` — properties of the library as a whole.
- `tests/` — tests of the library.
- `app/` — the server: the SQLite file behind the store, the HTTP routes
  (axum), uploads on disk and backup archives.
