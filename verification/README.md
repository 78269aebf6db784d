# trove_core

The logic of Trove, a durable music archive for DJs: an object store holds the
audio and a versioned index of it; every machine keeps a rebuildable cache of that
index; imports are resumable and verified before they are committed; playlists are
synced to removable volumes.

The library under `src/` is written in Verus. Its functions state what they return or
change, and Verus proves it. Where the layout of text is another crate's own, as in a
TOML document that is edited in place, they state what the text holds. The properties
that span functions stand beside them as public proof functions whose names begin with
`law_`.

## Layout

- `src/text.rs`, `path.rs`, `sort.rs`, `collections.rs`, `time.rs`, `hash.rs`:
  text, paths, orders, maps keyed by text, times and content hashes.
- `src/model.rs`, `error.rs`, `config.rs`, `query.rs`, `metadata.rs`: what the rest
  speaks of.
- `src/archive/`: the index in the bucket: its keys, pushing it with
  compare-and-swap, reconciling a cache with it, auditing the objects behind it.
- `src/import/`: discovery, planning, upload, verification, commit, artwork, and
  what is told of the progress.
- `src/library/`: the shape of a library, backfill plans, chunk claims, slugs.
- `src/store/`: what an object store is asked, the store in memory, and the rules of
  the folder-backed and the S3-backed one.
- `src/db/`: what the rows of the local databases mean.
- `src/sync.rs`, `volume.rs`, `playlist.rs`: syncing tracks and playlists to volumes.
- `src/facade.rs`, `report.rs`: which steps a command takes, and what it prints.
- `tests/`: the library seen from outside.
- `app/`: the program around it. It reads and writes files, databases and buckets,
  and hands what it finds to the library.

## Files, databases, buckets

The library does no I/O. What alternates outside work and decisions is a state
machine: the library says what has to be found out or done next, the program does
it and reports back. `import::plan::PlanRun`, `archive::push::PushState` and
`sync::SyncRun` work this way. Paths are text with the rules of Unix, and times are
seconds and nanoseconds since the Unix epoch.

What comes from another crate stands behind a few functions marked as trusted: the
SHA-256 of bytes, RFC 3339 text, Unicode normalization, JSON lists of texts, random
ids, the clock, and editing a TOML document in place. The doc comment of each says
what is believed of it.
