//! The canonical index: keys, framing, reconciling, pushing and verifying.

use trove_core::archive::index::{
    kept_lines_of, lines_from_jsonl, lines_to_jsonl, ARTWORK_MANIFEST_JSONL, PLAYLISTS_JSONL,
};
use trove_core::archive::push::{push_action, push_next, push_start, PushAction, PushEvent};
use trove_core::archive::reconcile::{
    pulled, reconcile, CacheState, MarkerReply, ReconcileReport, ReconcileStep,
};
use trove_core::archive::{
    verify_archive, BucketPaths, ARCHIVE_INDEX_SQLITE, CURRENT_SCHEMA_VERSION, SCHEMA_VERSION_JSON,
};
use trove_core::hash::hash_bytes;
use trove_core::model::{ArchiveEntry, Metadata, SchemaVersion, Timestamp, TrackId};
use trove_core::store::stub::StubStore;
use trove_core::store::{LoggedStore, ObjectStore, PutOutcome};
use trove_core::Error;

fn now() -> Timestamp {
    Timestamp { secs: 1_767_225_600, nanos: 0 }
}

fn entry(id: &str, key: &str, sha: &str, size: u64) -> ArchiveEntry {
    ArchiveEntry {
        track_id: TrackId::from(id),
        object_key: key.to_string(),
        size_bytes: size,
        sha256: sha.to_string(),
        metadata: Metadata::default(),
        tags: Vec::new(),
        imported_at: now(),
        updated_at: now(),
        source_path_original: None,
        artwork_object_key: None,
        library_relative_path: None,
    }
}

// --- Verifying -------------------------------------------------------------

#[test]
fn shallow_verify_catches_missing_and_size_mismatch_but_not_corruption() {
    let mut store = StubStore::new();
    store.put("music/a.mp3", b"hello world").unwrap();
    let entries = vec![
        entry("a", "music/a.mp3", &hash_bytes(b"hello world"), 999),
        entry("b", "music/b.mp3", "deadbeef", 5),
    ];

    let report = verify_archive(&mut LoggedStore::new(store), &entries, false).unwrap();
    assert!(!report.is_clean());
    assert_eq!(report.missing, vec![TrackId::from("b")]);
    assert_eq!(report.size_mismatch, vec![TrackId::from("a")]);
    assert!(report.hash_mismatch.is_empty(), "shallow mode never checks hashes");
}

#[test]
fn deep_verify_catches_content_corruption_shallow_mode_misses() {
    let mut store = StubStore::new();
    store.put("music/c.mp3", b"corrupted!!").unwrap();
    let entries = vec![entry("c", "music/c.mp3", &hash_bytes(b"original!!!"), 11)];

    let mut store = LoggedStore::new(store);
    let shallow = verify_archive(&mut store, &entries, false).unwrap();
    assert!(
        shallow.is_clean(),
        "shallow mode can't see content corruption: size matches"
    );

    let deep = verify_archive(&mut store, &entries, true).unwrap();
    assert!(!deep.is_clean());
    assert_eq!(deep.hash_mismatch, vec![TrackId::from("c")]);
}

#[test]
fn deep_verify_passes_genuinely_intact_content() {
    let mut store = StubStore::new();
    store.put("music/d.mp3", b"intact bytes").unwrap();
    let entries = vec![entry("d", "music/d.mp3", &hash_bytes(b"intact bytes"), 12)];

    let report = verify_archive(&mut LoggedStore::new(store), &entries, true).unwrap();
    assert!(report.is_clean());
    assert_eq!(report.verified, 1);
}

#[test]
fn every_entry_lands_in_one_list_of_the_report() {
    let mut store = StubStore::new();
    store.put("k1", b"one").unwrap();
    store.put("k2", b"two").unwrap();
    store.put("k3", b"three").unwrap();
    let entries = vec![
        entry("1", "k1", &hash_bytes(b"one"), 3),
        entry("2", "k2", &hash_bytes(b"owt"), 3),
        entry("3", "k3", "x", 3),
        entry("4", "k4", "x", 3),
    ];
    let r = verify_archive(&mut LoggedStore::new(store), &entries, true).unwrap();
    assert_eq!(r.total, 4);
    assert_eq!(
        r.verified + r.missing.len() + r.size_mismatch.len() + r.hash_mismatch.len(),
        r.total
    );
    assert!(r.deep);
}

// --- Keys ------------------------------------------------------------------

#[test]
fn keys_stand_under_their_prefix() {
    let paths = BucketPaths::new(".trove//", "music/");
    assert_eq!(paths.archive_index_generation(7), ".trove/archive-index/7.jsonl");
    assert_eq!(paths.schema_version(), format!(".trove/{SCHEMA_VERSION_JSON}"));
    assert_eq!(paths.archive_index_sqlite(), format!(".trove/{ARCHIVE_INDEX_SQLITE}"));
    assert_eq!(paths.playlists_jsonl(), format!(".trove/{PLAYLISTS_JSONL}"));
    assert_eq!(paths.artwork_manifest(), format!(".trove/{ARTWORK_MANIFEST_JSONL}"));
    assert_eq!(paths.staging("j"), ".trove/staging/j");
    assert_eq!(paths.music("/abc.mp3"), "music/abc.mp3");
    assert_eq!(paths.artwork("abc.jpg"), "artwork/abc.jpg");
    assert_eq!(paths.chunk_events_prefix("p"), ".trove/backfill-plans/p/events/");
    assert_eq!(paths.backfill_plans_prefix(), ".trove/backfill-plans/");
    assert_ne!(paths.archive_index_generation(1), paths.archive_index_generation(11));
    assert_eq!(CURRENT_SCHEMA_VERSION, 1);
}

// --- Framing ---------------------------------------------------------------

#[test]
fn lines_come_back_as_they_were_framed() {
    let lines = vec!["{\"a\":1}".to_string(), "{\"b\":\"é\"}".to_string()];
    let bytes = lines_to_jsonl(&lines);
    assert_eq!(bytes, "{\"a\":1}\n{\"b\":\"é\"}\n".as_bytes());
    assert_eq!(lines_from_jsonl(&bytes), lines);
}

#[test]
fn blank_lines_are_skipped_and_lines_are_trimmed() {
    assert_eq!(kept_lines_of("\n  {\"a\":1}\r\n\t\n{}"), vec!["{\"a\":1}", "{}"]);
    assert_eq!(lines_from_jsonl(b""), Vec::<String>::new());
    assert_eq!(lines_from_jsonl(b"\xff\n"), vec!["\u{fffd}"]);
}

// --- Reconciling -----------------------------------------------------------

fn marker(generation: u64) -> MarkerReply {
    MarkerReply::Found(SchemaVersion {
        schema_version: CURRENT_SCHEMA_VERSION,
        generation,
        updated_at: now(),
    })
}

fn sample_entry(id: &str, artist: &str, bpm: f32) -> ArchiveEntry {
    let mut sample = entry(id, &format!("music/{id}.flac"), "deadbeef", 1024);
    sample.metadata.artist = Some(artist.to_string());
    sample.metadata.bpm = Some(bpm.to_bits());
    sample.tags = vec!["house".to_string()];
    sample
}

#[test]
fn reconcile_hydrates_then_no_ops() {
    let paths = BucketPaths::new(".trove", "music");
    let cold = CacheState { generation: None, count: 0 };
    let step = reconcile(&paths, marker(1), &cold, false);
    assert_eq!(
        step,
        ReconcileStep::Pull { key: ".trove/archive-index/1.jsonl".to_string(), generation: 1 }
    );
    let entries = vec![sample_entry("a", "Theo Parrish", 120.0), sample_entry("b", "Rick Wade", 122.0)];
    let replacement = pulled(1, Ok(entries.clone())).unwrap();
    assert_eq!(replacement.entries, entries);
    assert_eq!(replacement.generation, 1);
    assert_eq!(
        replacement.report,
        ReconcileReport::Rehydrated { generation: 1, entries_loaded: 2 }
    );

    let warm = CacheState { generation: Some(1), count: 2 };
    assert_eq!(
        reconcile(&paths, marker(1), &warm, false),
        ReconcileStep::Done(ReconcileReport::UpToDate { generation: 1 })
    );
}

#[test]
fn empty_bucket_reconciles_cleanly() {
    let paths = BucketPaths::new(".trove", "music");
    let cold = CacheState { generation: None, count: 0 };
    assert_eq!(
        reconcile(&paths, MarkerReply::Missing, &cold, false),
        ReconcileStep::Done(ReconcileReport::EmptyBucket)
    );
}

#[test]
fn an_unreachable_bucket_falls_back_only_if_asked() {
    let paths = BucketPaths::new(".trove", "music");
    let warm = CacheState { generation: Some(3), count: 1 };
    let cold = CacheState { generation: None, count: 0 };
    let down = || MarkerReply::Unreachable(Error::store("down"));
    assert_eq!(
        reconcile(&paths, down(), &warm, true),
        ReconcileStep::Done(ReconcileReport::OfflineFallback { local_generation: Some(3) })
    );
    assert!(matches!(
        reconcile(&paths, down(), &warm, false),
        ReconcileStep::Fail(Error::Reconcile(_))
    ));
    assert_eq!(
        reconcile(&paths, down(), &cold, true),
        ReconcileStep::Done(ReconcileReport::OfflineFallback { local_generation: None })
    );
    assert_eq!(
        reconcile(&paths, down(), &cold, false),
        ReconcileStep::Fail(Error::Reconcile(format!(
            "could not read .trove/{SCHEMA_VERSION_JSON}: object store error: down"
        )))
    );
    assert_eq!(
        reconcile(&paths, MarkerReply::Unreadable(Error::Serde("bad".to_string())), &warm, true),
        ReconcileStep::Fail(Error::Serde("bad".to_string()))
    );
}

#[test]
fn an_index_that_cannot_be_loaded_is_an_error() {
    assert_eq!(
        pulled(1, Err(Error::store("gone"))),
        Err(Error::Reconcile("could not pull archive index: object store error: gone".to_string()))
    );
}

#[test]
fn an_empty_cache_is_filled_even_at_the_right_generation() {
    let paths = BucketPaths::new(".trove", "music");
    let hollow = CacheState { generation: Some(7), count: 0 };
    assert!(matches!(
        reconcile(&paths, marker(7), &hollow, false),
        ReconcileStep::Pull { generation: 7, .. }
    ));
}

// --- Pushing ---------------------------------------------------------------

struct Machine {
    tracks: Vec<String>,
    synced: Option<u64>,
}

/// Runs a push to its end. `race` is a write of another machine that lands just
/// before the marker is advanced for the first time.
fn push(m: &mut Machine, store: &mut StubStore, race: Option<(&str, &[u8])>) -> Result<u64, Error> {
    let paths = BucketPaths::new(".trove", "music");
    let mut race = race;
    let mut state = push_start();
    loop {
        let event = match push_action(&state, &paths) {
            PushAction::ReadHead { key } => match store.head(&key)? {
                Some(meta) => PushEvent::MarkerSeen { etag: meta.etag },
                None => PushEvent::NoMarker,
            },
            PushAction::ReadMarker { key } => {
                let bytes = store.get(&key)?;
                let remote = String::from_utf8(bytes).unwrap().parse().unwrap();
                PushEvent::GenerationRead { remote, local: m.synced }
            }
            PushAction::MergeIndex { key } => {
                for line in lines_from_jsonl(&store.get(&key)?) {
                    if !m.tracks.contains(&line) {
                        m.tracks.push(line);
                    }
                }
                PushEvent::Merged
            }
            PushAction::CreateIndex { key } => {
                match store.put_if_match(&key, None, &lines_to_jsonl(&m.tracks))? {
                    PutOutcome::Written(_) => PushEvent::Written,
                    PutOutcome::Conflict { .. } => PushEvent::Refused,
                }
            }
            PushAction::AdvanceMarker { key, generation, etag } => {
                if let Some((other, bytes)) = race.take() {
                    store.put(other, bytes).unwrap();
                }
                let body = generation.to_string();
                match store.put_if_match(&key, etag.as_deref(), body.as_bytes())? {
                    PutOutcome::Written(_) => PushEvent::Written,
                    PutOutcome::Conflict { .. } => PushEvent::Refused,
                }
            }
            PushAction::Finish { generation } => {
                m.synced = Some(generation);
                return Ok(generation);
            }
            PushAction::Fail { error } => return Err(error),
        };
        state = push_next(state, event);
    }
}

#[test]
fn a_push_merges_what_another_machine_committed() {
    let mut store = StubStore::new();
    let mut a = Machine { tracks: vec!["a1".to_string()], synced: None };
    let mut b = Machine { tracks: vec!["b1".to_string()], synced: None };
    assert_eq!(push(&mut a, &mut store, None), Ok(1));
    assert_eq!(push(&mut b, &mut store, None), Ok(2));
    let index = lines_from_jsonl(&store.get(".trove/archive-index/2.jsonl").unwrap());
    assert_eq!(index, vec!["b1", "a1"]);
    let first = lines_from_jsonl(&store.get(".trove/archive-index/1.jsonl").unwrap());
    assert_eq!(first, vec!["a1"], "an index is never rewritten");
}

#[test]
fn a_lost_race_is_tried_again_and_loses_nothing() {
    let mut store = StubStore::new();
    let mut a = Machine { tracks: vec!["a1".to_string()], synced: None };
    push(&mut a, &mut store, None).unwrap();
    store.put(".trove/archive-index/5.jsonl", b"c1\na1\n").unwrap();
    a.tracks.push("a2".to_string());
    let r = push(&mut a, &mut store, Some((".trove/schema-version.json", b"5")));
    assert_eq!(r, Ok(6));
    let index = lines_from_jsonl(&store.get(".trove/archive-index/6.jsonl").unwrap());
    assert_eq!(index, vec!["a1", "a2", "c1"]);
}

#[test]
fn a_push_gives_up_under_constant_contention() {
    let mut store = StubStore::new();
    store.put(".trove/archive-index/1.jsonl", b"x\n").unwrap();
    let mut a = Machine { tracks: vec!["a1".to_string()], synced: None };
    assert_eq!(
        push(&mut a, &mut store, None),
        Err(Error::store("push_index: exceeded 10 retries under contention"))
    );
}
