//! Imports: planning, uploading, verifying, committing, artwork and progress.

use trove_core::archive::BucketPaths;
use trove_core::facade::{
    full_import_commands, import_steps, is_on_disk, require_root, require_sync_job,
    resume_commands, select_tracks, ImportCommand, Selection, Step,
};
use trove_core::hash::hash_bytes;
use trove_core::import::artwork::{
    append_artwork_manifest, artwork_folders, artwork_key_of, artwork_record, folder_of_image,
    merge_artwork, push_artwork_file, takes_folder_entry, use_artwork_path, ArtworkPathUse,
    CaptureRun, PathKind,
};
use trove_core::import::commit::{promote_object, CommitRun, CommitTask};
use trove_core::import::job::{
    format_mtime, has_changed, is_unchanged, needs_refresh, refresh_file, staging_relative,
    FileStamp,
};
use trove_core::import::manifest::{manifest_of, manifest_path};
use trove_core::import::plan::{
    cache_lookup, can_skip_fingerprint, discover_audio, discover_sorted, gathers_artwork,
    match_by_slug, new_job, staging_name, CachedFingerprint, PlanEvent, PlanRun, PlanStage, Source,
};
use trove_core::import::progress::{
    align_right, file_done, format_elapsed, job_created, phase_done, phase_start, progress_line,
};
use trove_core::import::retry::{after_failure, is_transient, tried, Tried};
use trove_core::import::scan::{is_audio, is_hidden, is_image};
use trove_core::import::upload::UploadRun;
use trove_core::import::verify::{
    check_object, judge_content, judge_head, HeadVerdict, VerifyRun, VerifyTask,
};
use trove_core::import::{
    canonical_music_relative, prepare_for_resume, ArtworkCandidate, DuplicateReason, FileState,
    ImportJob, ImportOptions, Phase, PlannedFile, DEFAULT_AUDIO_EXTENSIONS,
    DEFAULT_IMAGE_EXTENSIONS,
};
use trove_core::library::shape::Entry;
use trove_core::metadata::{MetadataExtractor, StubExtractor};
use trove_core::model::{ArchiveEntry, Metadata, Timestamp, TrackId};
use trove_core::sort::sort_paths;
use trove_core::store::stub::StubStore;
use trove_core::store::{LoggedStore, ObjectMeta, ObjectStore, PutOutcome};
use trove_core::Error;

fn now() -> Timestamp {
    Timestamp { secs: 1_767_225_600, nanos: 0 }
}

fn planned(path: &str, sha: &str, state: FileState) -> PlannedFile {
    PlannedFile {
        path: path.to_string(),
        size: 3,
        mtime: None,
        sha256: sha.to_string(),
        state,
        object_key: None,
        track_id: None,
        etag: None,
        error: None,
        attempts: 0,
        duplicate_reason: None,
    }
}

fn job(files: Vec<PlannedFile>) -> ImportJob {
    ImportJob {
        id: "j".to_string(),
        source_root: "/src".to_string(),
        staging_prefix: "staging/j".to_string(),
        phase: Phase::Upload,
        files,
        artwork: Vec::new(),
    }
}

fn entry(id: &str, sha: &str, size: u64) -> ArchiveEntry {
    ArchiveEntry {
        track_id: TrackId::from(id),
        object_key: format!("music/{sha}.mp3"),
        size_bytes: size,
        sha256: sha.to_string(),
        metadata: Metadata::default(),
        tags: Vec::new(),
        imported_at: now(),
        updated_at: now(),
        source_path_original: None,
        artwork_object_key: None,
        library_relative_path: None,
    }
}

/// A store in memory, lent to a function that keeps its store.
struct Lent<'a>(&'a mut StubStore);

impl ObjectStore for Lent<'_> {
    fn get(&mut self, key: &str) -> Result<Vec<u8>, Error> {
        self.0.get(key)
    }

    fn put(&mut self, key: &str, bytes: &[u8]) -> Result<ObjectMeta, Error> {
        self.0.put(key, bytes)
    }

    fn object_exists(&mut self, key: &str) -> Result<bool, Error> {
        self.0.object_exists(key)
    }

    fn head(&mut self, key: &str) -> Result<Option<ObjectMeta>, Error> {
        self.0.head(key)
    }

    fn copy(&mut self, from_key: &str, to_key: &str) -> Result<ObjectMeta, Error> {
        self.0.copy(from_key, to_key)
    }

    fn list(&mut self, prefix: &str) -> Result<Vec<String>, Error> {
        self.0.list(prefix)
    }

    fn put_if_match(
        &mut self,
        key: &str,
        expected_etag: Option<&str>,
        bytes: &[u8],
    ) -> Result<PutOutcome, Error> {
        self.0.put_if_match(key, expected_etag, bytes)
    }
}

fn lent(store: &mut StubStore) -> LoggedStore<Lent<'_>> {
    LoggedStore::new(Lent(store))
}

// --- Jobs ------------------------------------------------------------------

#[test]
fn canonical_music_relative_uses_hash_and_extension() {
    let path = "/music/Artist/Album/01 - Intro.mp3";
    assert_eq!(canonical_music_relative("abc123", path), "abc123.mp3");
}

#[test]
fn prepare_for_resume_resets_uploading_and_failed() {
    let mut job = ImportJob {
        id: "j".into(),
        source_root: "/src".into(),
        staging_prefix: "staging/j".into(),
        phase: Phase::Upload,
        files: vec![
            PlannedFile {
                path: "/src/a.mp3".into(),
                size: 1,
                mtime: None,
                sha256: "a".into(),
                state: FileState::Uploading,
                object_key: None,
                track_id: None,
                etag: None,
                error: Some("timeout".into()),
                attempts: 2,
                duplicate_reason: None,
            },
            PlannedFile {
                path: "/src/b.mp3".into(),
                size: 1,
                mtime: None,
                sha256: "b".into(),
                state: FileState::Uploaded,
                object_key: Some("k".into()),
                track_id: None,
                etag: None,
                error: None,
                attempts: 0,
                duplicate_reason: None,
            },
        ],
        artwork: Vec::new(),
    };
    prepare_for_resume(&mut job);
    assert_eq!(job.files[0].state, FileState::Hashed);
    assert!(job.files[0].error.is_none());
    assert_eq!(job.files[1].state, FileState::Uploaded);
}

#[test]
fn a_failed_file_is_put_back_in_line() {
    let mut j = job(vec![planned("/src/a.mp3", "a", FileState::Failed)]);
    j.files[0].error = Some("lost".to_string());
    prepare_for_resume(&mut j);
    assert_eq!(j.files[0].state, FileState::Hashed);
    assert_eq!(j.files[0].error, None);
}

#[test]
fn names_without_extension_count_as_bin() {
    assert_eq!(canonical_music_relative("abc", "/music/track"), "abc.bin");
    assert_eq!(canonical_music_relative("abc", "/music/.hidden"), "abc.bin");
    assert_eq!(canonical_music_relative("abc", "/music/A.FLAC"), "abc.flac");
    assert_eq!(staging_relative("abc", "/music/A b.flac"), "abc/A b.flac");
    assert_eq!(staging_relative("abc", "/"), "abc/object");
}

#[test]
fn stats_count_by_state() {
    let j = job(vec![
        planned("1", "a", FileState::Duplicate),
        planned("2", "b", FileState::Uploaded),
        planned("3", "c", FileState::Verified),
        planned("4", "d", FileState::Committed),
        planned("5", "e", FileState::Failed),
        planned("6", "f", FileState::Hashed),
        planned("7", "g", FileState::Failed),
    ]);
    let s = j.stats();
    assert_eq!(
        (s.total, s.duplicates, s.uploaded, s.verified, s.committed, s.failed),
        (7, 1, 1, 1, 1, 2)
    );
}

#[test]
fn states_and_phases_go_by_their_names() {
    for s in [
        FileState::Pending,
        FileState::Scanning,
        FileState::Hashed,
        FileState::Duplicate,
        FileState::Uploading,
        FileState::Uploaded,
        FileState::Verified,
        FileState::Committed,
        FileState::Failed,
    ] {
        assert_eq!(FileState::parse(s.as_str()), Some(s));
    }
    for p in [
        Phase::Scan,
        Phase::Fingerprint,
        Phase::Dedupe,
        Phase::Upload,
        Phase::Verify,
        Phase::Commit,
        Phase::Done,
    ] {
        assert_eq!(Phase::parse(p.as_str()), Some(p));
    }
    assert_eq!(FileState::parse("nope"), None);
    assert_eq!(Phase::parse("Upload"), None);
    assert!(FileState::Committed.is_terminal());
    assert!(!FileState::Uploaded.is_terminal());
}

#[test]
fn a_changed_file_is_fingerprinted_again() {
    let mut f = planned("/src/a.mp3", "old", FileState::Failed);
    f.mtime = Some("1.000000000".to_string());
    assert!(is_unchanged(&f, 3, &Some("1.000000000".to_string())));
    assert!(!is_unchanged(&f, 4, &Some("1.000000000".to_string())));
    assert!(!is_unchanged(&f, 3, &None));
    assert!(needs_refresh(&planned("p", "s", FileState::Hashed)));
    assert!(!needs_refresh(&planned("p", "s", FileState::Committed)));
    let stamp = |size| Some(FileStamp { size, mtime: Some("1.000000000".to_string()) });
    assert!(has_changed(&f, &stamp(4)));
    assert!(!has_changed(&f, &stamp(3)));
    assert!(!has_changed(&f, &None));
    assert!(!has_changed(&planned("p", "s", FileState::Duplicate), &stamp(4)));
    refresh_file(&mut f, 5, None, b"hello");
    assert_eq!(f.sha256, hash_bytes(b"hello"));
    assert_eq!(f.size, 5);
    assert_eq!(f.mtime, None);
    assert_eq!(format_mtime(12, 5), "12.000000005");
}

// --- Planning --------------------------------------------------------------

#[test]
fn discovery_takes_audio_and_leaves_hidden_files() {
    let entries = vec![
        Entry::File { path: "/m/b.mp3".to_string(), size: 1 },
        Entry::File { path: "/m/.x.mp3".to_string(), size: 1 },
        Entry::File { path: "/m/cover.jpg".to_string(), size: 1 },
        Entry::Dir {
            path: "/m/a".to_string(),
            entries: vec![Entry::File { path: "/m/a/Z.FLAC".to_string(), size: 1 }],
        },
        Entry::Other { path: "/m/pipe".to_string() },
    ];
    let found = discover_audio(
        "/m",
        &Source::Directory { entries },
        &DEFAULT_AUDIO_EXTENSIONS,
        false,
    )
    .unwrap();
    assert_eq!(found, vec!["/m/b.mp3", "/m/a/Z.FLAC"]);
    assert_eq!(sort_paths(&found), vec!["/m/a/Z.FLAC", "/m/b.mp3"]);
    assert_eq!(
        discover_audio("/m/b.mp3", &Source::File, &DEFAULT_AUDIO_EXTENSIONS, false).unwrap(),
        vec!["/m/b.mp3"]
    );
    assert_eq!(
        discover_audio("/m/x.txt", &Source::File, &DEFAULT_AUDIO_EXTENSIONS, false),
        Ok(Vec::new())
    );
    assert_eq!(
        discover_audio("/gone", &Source::Missing, &DEFAULT_AUDIO_EXTENSIONS, false),
        Err(Error::not_found("import source not found: /gone"))
    );
    assert!(is_hidden("/m/.x", false));
    assert!(!is_hidden("/m/.x", true));
    assert!(is_audio("/m/x.Mp3", &DEFAULT_AUDIO_EXTENSIONS));
    assert!(is_image("/m/x.JPG", &DEFAULT_IMAGE_EXTENSIONS));
    assert!(!is_image("/m/x.mp3", &DEFAULT_IMAGE_EXTENSIONS));
}

#[test]
fn lookup_misses_until_upserted_then_hits_on_matching_stat() {
    let mtime = Some("100.0".to_string());
    assert_eq!(cache_lookup(&None, 1024, &mtime), None);
    let row = Some(CachedFingerprint {
        size_bytes: 1024,
        mtime: mtime.clone(),
        sha256: "abc123".to_string(),
    });
    assert_eq!(cache_lookup(&row, 1024, &mtime), Some("abc123".to_string()));
}

#[test]
fn lookup_misses_when_size_or_mtime_changed() {
    let row = Some(CachedFingerprint {
        size_bytes: 1024,
        mtime: Some("100.0".to_string()),
        sha256: "abc123".to_string(),
    });
    assert_eq!(cache_lookup(&row, 2048, &Some("100.0".to_string())), None);
    assert_eq!(cache_lookup(&row, 1024, &Some("200.0".to_string())), None);
    assert_eq!(cache_lookup(&row, 1024, &None), None);
}

#[test]
fn upsert_overwrites_stale_entry_for_same_path() {
    let row = Some(CachedFingerprint {
        size_bytes: 2048,
        mtime: Some("200.0".to_string()),
        sha256: "new-hash".to_string(),
    });
    assert_eq!(cache_lookup(&row, 1024, &Some("100.0".to_string())), None);
    assert_eq!(
        cache_lookup(&row, 2048, &Some("200.0".to_string())),
        Some("new-hash".to_string())
    );
}

/// A plan for files in the folder `/src` or below, of a job with the given files.
fn begin_plan(paths: &[&str], files: Vec<PlannedFile>, root: Option<&str>) -> PlanRun {
    let entries =
        paths.iter().map(|p| Entry::File { path: p.to_string(), size: 1 }).collect();
    let source = Source::Directory { entries };
    let mut fresh = new_job("j".to_string(), "/src");
    fresh.files = files;
    let root = root.map(|r| r.to_string());
    PlanRun::begin(fresh, &source, &DEFAULT_AUDIO_EXTENSIONS, false, root).unwrap()
}

/// Plans the file in hand from its content, and returns it.
fn plan_by_content(run: &mut PlanRun, size: u64, bytes: &[u8], known: bool) -> PlannedFile {
    run.report(PlanEvent::Found { size, mtime: None });
    run.report(PlanEvent::Cached { row: None });
    assert!(matches!(run.stage(), PlanStage::Read { .. }));
    run.report(PlanEvent::Content { bytes: bytes.to_vec() });
    assert!(matches!(run.stage(), PlanStage::Archive { computed: true, .. }));
    run.report(PlanEvent::Archived { known });
    match run.stage() {
        PlanStage::Settled { file } => file.copy(),
        _ => panic!("the file is settled"),
    }
}

#[test]
fn the_same_content_is_planned_once() {
    let mut run =
        begin_plan(&["/src/c.mp3", "/src/a.mp3", "/src/b.mp3", "/src/x.txt"], Vec::new(), None);
    assert_eq!(run.discovered(), &vec!["/src/a.mp3", "/src/b.mp3", "/src/c.mp3"]);
    assert!(run.next_file());
    let a = plan_by_content(&mut run, 3, b"abc", false);
    assert!(run.next_file());
    let b = plan_by_content(&mut run, 3, b"abc", false);
    assert!(run.next_file());
    let c = plan_by_content(&mut run, 3, b"abd", true);
    assert!(!run.next_file());
    assert_eq!(a.state, FileState::Hashed);
    assert_eq!(a.sha256, hash_bytes(b"abc"));
    assert_eq!(b.state, FileState::Duplicate);
    assert_eq!(b.duplicate_reason, None);
    assert_eq!(c.state, FileState::Duplicate);
    let j = run.finish(Vec::new());
    assert_eq!(j.files, vec![a, b, c]);
    assert_eq!(j.phase, Phase::Dedupe);
    assert_eq!(j.id, "j");
    assert_eq!(j.source_root, "/src");
    assert_eq!(j.staging_prefix, "staging/j");
    assert_eq!(staging_name("x"), "staging/x");
}

#[test]
fn content_is_read_only_if_nothing_else_vouches_for_it() {
    let mut run = begin_plan(&["/lib/A/a.mp3", "/lib/A/b.mp3"], Vec::new(), Some("/lib"));
    assert!(run.next_file());
    match run.stage() {
        PlanStage::Scan { file } => assert_eq!(file.state, FileState::Scanning),
        _ => panic!("a fresh file is scanned"),
    }
    run.report(PlanEvent::Found { size: 10, mtime: None });
    match run.stage() {
        PlanStage::Slug { slug, .. } => assert_eq!(slug, "A/a.mp3"),
        _ => panic!("the place of the file is looked up"),
    }
    run.report(PlanEvent::Candidates { entries: vec![entry("t", "known", 10)] });
    match run.stage() {
        PlanStage::Settled { file } => {
            assert_eq!(file.sha256, "known");
            assert_eq!(file.state, FileState::Duplicate);
            assert_eq!(file.duplicate_reason, Some(DuplicateReason::SlugAndSize));
        }
        _ => panic!("the archive vouches for the file"),
    }

    assert!(run.next_file());
    run.report(PlanEvent::Found { size: 11, mtime: Some("1.0".to_string()) });
    run.report(PlanEvent::Candidates { entries: vec![entry("t", "known", 10)] });
    assert!(matches!(run.stage(), PlanStage::Cache { .. }));
    let row = CachedFingerprint {
        size_bytes: 11,
        mtime: Some("1.0".to_string()),
        sha256: "cached".to_string(),
    };
    run.report(PlanEvent::Cached { row: Some(row) });
    assert!(matches!(run.stage(), PlanStage::Archive { computed: false, .. }));
    run.report(PlanEvent::Content { bytes: Vec::new() });
    assert!(matches!(run.stage(), PlanStage::Archive { computed: false, .. }));
    run.report(PlanEvent::Archived { known: false });
    assert!(!run.next_file());
    let files = run.finish(Vec::new()).files;
    assert_eq!(files[1].sha256, "cached");
    assert_eq!(files[1].state, FileState::Hashed);
}

#[test]
fn an_interrupted_plan_goes_on_with_what_it_had() {
    let mut old = planned("/src/a.mp3", "a", FileState::Hashed);
    old.mtime = Some("1.0".to_string());
    assert!(can_skip_fingerprint(&old, 3, &Some("1.0".to_string())));
    assert!(!can_skip_fingerprint(&old, 4, &Some("1.0".to_string())));
    let begun = planned("/src/b.mp3", "", FileState::Scanning);
    let discovered = ["/src/a.mp3", "/src/b.mp3"];

    let mut run = begin_plan(&discovered, vec![old.copy(), begun.copy()], None);
    assert!(run.next_file());
    assert!(matches!(run.stage(), PlanStage::Compare { .. }));
    run.report(PlanEvent::Found { size: 3, mtime: Some("1.0".to_string()) });
    assert!(matches!(run.stage(), PlanStage::Kept { .. }));
    assert!(run.next_file());
    assert!(matches!(run.stage(), PlanStage::Scan { .. }));
    let b = plan_by_content(&mut run, 3, b"abc", false);
    assert!(!run.next_file());
    assert_eq!(run.finish(Vec::new()).files, vec![old.copy(), b]);

    let mut run = begin_plan(&discovered, vec![old.copy()], None);
    assert!(run.next_file());
    run.report(PlanEvent::Found { size: 4, mtime: Some("2.0".to_string()) });
    match run.stage() {
        PlanStage::Scan { file } => assert_eq!(file.state, FileState::Scanning),
        _ => panic!("a changed file is scanned again"),
    }
}

#[test]
fn a_resumed_plan_uploads_no_content_twice() {
    let mut old = planned("/src/b.mp3", &hash_bytes(b"abc"), FileState::Hashed);
    old.mtime = Some("1.0".to_string());
    let mut run = begin_plan(&["/src/a.mp3", "/src/b.mp3"], vec![old.copy()], None);
    assert!(run.next_file());
    let a = plan_by_content(&mut run, 3, b"abc", false);
    assert_eq!(a.state, FileState::Duplicate);
    assert!(run.next_file());
    run.report(PlanEvent::Found { size: 3, mtime: Some("1.0".to_string()) });
    assert!(!run.next_file());
    assert_eq!(run.finish(Vec::new()).files, vec![a, old]);
}

#[test]
fn a_plan_needs_a_source() {
    let gone = PlanRun::begin(
        new_job("j".to_string(), "/gone"),
        &Source::Missing,
        &DEFAULT_AUDIO_EXTENSIONS,
        false,
        None,
    );
    assert_eq!(gone.err(), Some(Error::not_found("import source not found: /gone")));
    let list = discover_sorted("/m/a.mp3", &Source::File, &DEFAULT_AUDIO_EXTENSIONS, false);
    assert_eq!(list, Ok(vec!["/m/a.mp3".to_string()]));
}

#[test]
fn only_a_folder_brings_its_artwork() {
    let folder = Source::Directory { entries: Vec::new() };
    let mut options = ImportOptions::default();
    assert!(gathers_artwork(&options, &folder));
    assert!(!gathers_artwork(&options, &Source::File));
    options.capture_artwork = false;
    assert!(!gathers_artwork(&options, &folder));
}

#[test]
fn a_slug_match_needs_the_same_size() {
    let candidates = vec![entry("a", "sha-a", 10), entry("b", "sha-b", 20)];
    assert_eq!(match_by_slug(&candidates, 20), Some("sha-b".to_string()));
    assert_eq!(match_by_slug(&candidates, 30), None);
    assert_eq!(match_by_slug(&Vec::new(), 10), None);
}

// --- Phases ----------------------------------------------------------------

#[test]
fn a_file_goes_from_hashed_to_committed() {
    let paths = BucketPaths::new(".trove", "music");
    let mut store = StubStore::new();
    let sha = hash_bytes(b"abc");
    let j = job(vec![
        planned("/lib/Artist/a.mp3", &sha, FileState::Hashed),
        planned("/lib/b.mp3", "b", FileState::Duplicate),
    ]);

    let mut up = UploadRun::begin(j);
    let key = up.next_upload(&paths).unwrap();
    assert_eq!(key, format!(".trove/staging/j/{sha}/a.mp3"));
    assert_eq!(up.current().state, FileState::Uploading);
    let meta = store.put(&key, b"abc").unwrap();
    assert_eq!(up.settle(Ok(meta), 1).state, FileState::Uploaded);
    assert_eq!(up.progress(), (1, 1));
    assert_eq!(up.next_upload(&paths), None);
    let j = up.finish();
    assert_eq!(j.phase, Phase::Verify);

    let mut check = VerifyRun::begin(j);
    let key = match check.next_check() {
        Some(VerifyTask::Check { key }) => key,
        _ => panic!("there is one file to check"),
    };
    let verdict = check_object(&mut lent(&mut store), check.current(), &key, true);
    assert_eq!(verdict, Ok(()));
    assert_eq!(check.settle(verdict, 1).state, FileState::Verified);
    assert!(check.next_check().is_none());
    let j = check.finish();
    assert_eq!(j.phase, Phase::Commit);

    let mut commit = CommitRun::begin(j);
    assert!(commit.next_commit());
    let (from, to) = match commit.look_up(&None, &paths) {
        CommitTask::Promote { from, to } => (from, to),
        _ => panic!("the archive does not have the content"),
    };
    assert_eq!(from, key);
    assert_eq!(to, format!("music/{sha}.mp3"));
    assert_eq!(promote_object(&mut lent(&mut store), &from, &to), Ok(()));
    assert_eq!(store.get(&to), Ok(b"abc".to_vec()));
    let metadata = StubExtractor.extract(&commit.current().path).unwrap();
    let f = commit.settle(
        Ok(Some(metadata)),
        1,
        &paths,
        TrackId::from("t1"),
        now(),
        Some("/lib"),
    );
    assert!(!commit.next_commit());
    let (j, entries) = commit.finish();
    assert_eq!(entries.len(), 1);
    let e = &entries[0];
    assert_eq!(f.state, FileState::Committed);
    assert_eq!(e.object_key, to);
    assert_eq!(e.sha256, sha);
    assert_eq!(e.metadata.title.as_deref(), Some("a"));
    assert_eq!(e.metadata.file_type.as_deref(), Some("mp3"));
    assert_eq!(e.library_relative_path.as_deref(), Some("Artist/a.mp3"));
    assert_eq!(e.source_path_original.as_deref(), Some("/lib/Artist/a.mp3"));
    assert_eq!(j.phase, Phase::Done);
    assert_eq!(j.files[1].state, FileState::Duplicate);
}

#[test]
fn a_slug_is_recorded_only_under_a_declared_root() {
    let paths = BucketPaths::new(".trove", "music");
    let mut f = planned("/lib/a.mp3", "s", FileState::Verified);
    f.object_key = Some("staged".to_string());
    let mut run = CommitRun::begin(job(vec![f.copy(), f]));
    assert!(run.next_commit());
    run.settle(Ok(None), 1, &paths, TrackId::from("t"), now(), None);
    assert!(run.next_commit());
    let existing = entry("old", "s", 3);
    let d = match run.look_up(&Some(existing), &paths) {
        CommitTask::Settled { file } => file,
        _ => panic!("the archive has the content"),
    };
    assert_eq!(d.state, FileState::Duplicate);
    assert_eq!(d.track_id, Some(TrackId::from("old")));
    assert!(!run.next_commit());
    let (_, entries) = run.finish();
    assert_eq!(entries.len(), 1);
    assert_eq!(entries[0].library_relative_path, None);
    assert_eq!(entries[0].metadata, Metadata::default());
}

#[test]
fn failures_keep_their_reason() {
    let paths = BucketPaths::new(".trove", "music");
    let mut up = UploadRun::begin(job(vec![planned("/src/a.mp3", "a", FileState::Hashed)]));
    up.next_upload(&paths).unwrap();
    let f = up.settle(Err(Error::store("down")), 5);
    assert_eq!(f.state, FileState::Failed);
    assert_eq!(f.error.as_deref(), Some("object store error: down"));
    assert_eq!(f.attempts, 5);
    up.finish();

    let mut check = VerifyRun::begin(job(vec![planned("/src/a.mp3", "a", FileState::Uploaded)]));
    match check.next_check() {
        Some(VerifyTask::Failed { file }) => assert_eq!(file.state, FileState::Failed),
        _ => panic!("a file without a key cannot be checked"),
    }
    assert!(check.next_check().is_none());

    let mut f = planned("/src/a.mp3", "a", FileState::Verified);
    f.object_key = Some("k".to_string());
    let mut run = CommitRun::begin(job(vec![f]));
    assert!(run.next_commit());
    let f = run.settle(Err(Error::store("x")), 2, &paths, TrackId::from("t"), now(), None);
    assert_eq!(f.state, FileState::Failed);
    assert_eq!(f.error.as_deref(), Some("object store error: x"));
    assert!(!run.next_commit());
    assert!(run.finish().1.is_empty());
}

#[test]
fn a_check_needs_the_object_its_size_and_its_content() {
    let mut store = StubStore::new();
    let f = planned("/src/a.mp3", &hash_bytes(b"abc"), FileState::Uploaded);
    let missing = check_object(&mut lent(&mut store), &f, "k", false);
    assert_eq!(missing, Err(Error::NotFound("k".to_string())));
    store.put("k", b"abcd").unwrap();
    let longer = check_object(&mut lent(&mut store), &f, "k", false).unwrap_err();
    assert_eq!(longer, Error::Store("size mismatch for k: expected 3 got 4".to_string()));
    store.put("k", b"abd").unwrap();
    assert_eq!(check_object(&mut lent(&mut store), &f, "k", false), Ok(()));
    assert!(check_object(&mut lent(&mut store), &f, "k", true).is_err());
    store.put("k", b"abc").unwrap();
    assert_eq!(check_object(&mut lent(&mut store), &f, "k", true), Ok(()));
}

#[test]
fn a_promotion_leaves_alone_what_is_there() {
    let mut store = StubStore::new();
    store.put("staged", b"new").unwrap();
    store.put("music/x", b"old").unwrap();
    assert_eq!(promote_object(&mut lent(&mut store), "staged", "music/x"), Ok(()));
    assert_eq!(store.get("music/x"), Ok(b"old".to_vec()));
    assert_eq!(promote_object(&mut lent(&mut store), "staged", "music/y"), Ok(()));
    assert_eq!(store.get("music/y"), Ok(b"new".to_vec()));
    let gone = promote_object(&mut lent(&mut store), "nowhere", "music/z");
    assert!(matches!(gone, Err(Error::NotFound(_))));
}

#[test]
fn staged_objects_are_judged_by_size_and_content() {
    let f = planned("/src/a.mp3", &hash_bytes(b"abc"), FileState::Uploaded);
    let meta = |size| {
        Some(ObjectMeta { key: "k".to_string(), size_bytes: size, etag: None })
    };
    assert_eq!(judge_head(&f, "k", &meta(3), false), HeadVerdict::Pass);
    assert!(matches!(judge_head(&f, "k", &meta(4), false), HeadVerdict::Fail(_)));
    assert!(matches!(judge_head(&f, "k", &None, false), HeadVerdict::Fail(_)));
    assert!(judge_content(&f, "k", b"abc").is_ok());
    assert!(judge_content(&f, "k", b"abd").is_err());
}

#[test]
fn transient_errors_are_tried_again() {
    let down = Error::store("down");
    assert!(is_transient(&down));
    assert!(is_transient(&Error::Io("x".to_string())));
    assert!(!is_transient(&Error::not_found("x")));
    assert_eq!(after_failure(1, &down), Some(625));
    assert_eq!(after_failure(2, &down), Some(1250));
    assert_eq!(after_failure(3, &down), Some(2500));
    assert_eq!(after_failure(4, &down), Some(5000));
    assert_eq!(after_failure(5, &down), None);
    assert_eq!(after_failure(1, &Error::not_found("x")), None);

    let mut attempts = 3;
    let again = tried::<u8>(&mut attempts, Err(down.clone()));
    assert_eq!(again, Tried::Again { after_ms: 5000 });
    assert_eq!(tried::<u8>(&mut attempts, Err(down.clone())), Tried::Over(Err(down)));
    assert_eq!(attempts, 5);
    assert_eq!(tried(&mut attempts, Ok(7u8)), Tried::Over(Ok(7)));
}

// --- Artwork ---------------------------------------------------------------

#[test]
fn artwork_is_gathered_from_the_folders_of_audio() {
    let paths = vec!["/m/b/1.mp3".to_string(), "/m/a/1.mp3".to_string(), "/m/b/2.mp3".to_string()];
    assert_eq!(artwork_folders(&paths), vec!["/m/a", "/m/b"]);
    assert!(takes_folder_entry("/m/a/cover.jpg", true, false));
    assert!(!takes_folder_entry("/m/a/cover.jpg", false, false));
    assert!(!takes_folder_entry("/m/a/.cover.jpg", true, false));
    assert_eq!(folder_of_image("/m/a/cover.jpg"), "/m/a");
}

#[test]
fn every_image_gets_a_key_and_a_record() {
    let paths = BucketPaths::new(".trove", "music");
    let mut images = Vec::new();
    push_artwork_file(&mut images, "/m/a/cover.JPG", "/m/a", b"img");
    let sha = hash_bytes(b"img");
    let mut run = CaptureRun::begin(images);
    let task = run.next_image(&paths).unwrap();
    assert_eq!(task.path, "/m/a/cover.JPG");
    assert_eq!(task.key, format!("artwork/{sha}.jpg"));
    run.captured(&paths, now());
    assert_eq!(run.next_image(&paths), None);
    let (images, records) = run.finish();
    assert_eq!(images[0].object_key.as_deref(), Some(task.key.as_str()));
    assert_eq!(records.len(), 1);
    assert_eq!(records[0].object_key, task.key);
    assert_eq!(records[0].file_name, "cover.JPG");
    assert_eq!(records[0].captured_at, now());
}

#[test]
fn artwork_paths_have_to_be_images_or_folders() {
    assert_eq!(
        use_artwork_path("/m/cover.jpg", PathKind::File, false),
        Ok(ArtworkPathUse::TakeFile)
    );
    assert_eq!(
        use_artwork_path("/m", PathKind::Directory, false),
        Ok(ArtworkPathUse::ScanFolder)
    );
    assert_eq!(
        use_artwork_path("/m/.cover.jpg", PathKind::File, false),
        Ok(ArtworkPathUse::Skip)
    );
    assert_eq!(
        use_artwork_path("/m/a.mp3", PathKind::File, false),
        Err(Error::Other("artwork path is not an image: /m/a.mp3".to_string()))
    );
    assert_eq!(
        use_artwork_path("/gone", PathKind::Missing, false),
        Err(Error::Other("artwork path not found: /gone".to_string()))
    );
    assert!(use_artwork_path("/dev/x", PathKind::Other, false).is_err());
}

#[test]
fn the_same_image_is_captured_once_for_a_folder() {
    let mut list: Vec<ArtworkCandidate> = Vec::new();
    push_artwork_file(&mut list, "/m/a/cover.jpg", "/m/a", b"img");
    assert_eq!(list.len(), 1);
    assert_eq!(list[0].sha256, hash_bytes(b"img"));
    let more = vec![list[0].copy()];
    merge_artwork(&mut list, more);
    assert_eq!(list.len(), 1);

    let paths = BucketPaths::new(".trove", "music");
    let key = artwork_key_of(&list[0], &paths);
    assert_eq!(key, format!("artwork/{}.jpg", hash_bytes(b"img")));
    let record = artwork_record(&list[0], &key, now());
    assert_eq!(record.file_name, "cover.jpg");
    let mut all = Vec::new();
    append_artwork_manifest(&mut all, &vec![record.copy(), record]);
    assert_eq!(all.len(), 1);
}

// --- Progress --------------------------------------------------------------

#[test]
fn progress_is_told_line_by_line() {
    assert_eq!(progress_line(&job_created("j1", 0)).as_deref(), Some("job_id: j1"));
    assert_eq!(
        progress_line(&phase_start("j1", Phase::Upload, 3, 0)).as_deref(),
        Some("upload: 3 file(s)")
    );
    assert_eq!(
        progress_line(&file_done(
            "j1",
            Phase::Upload,
            2,
            30,
            "/m/a b.mp3",
            FileState::Uploaded,
            65_499
        ))
        .as_deref(),
        Some("     2/30   1:05  a b.mp3")
    );
    assert_eq!(progress_line(&phase_done("j1", Phase::Upload, 3, 3, 0)), None);
    assert_eq!(format_elapsed(59_500), "1:00");
    assert_eq!(align_right("ab", 4), "  ab");
    assert_eq!(align_right("abcde", 4), "abcde");
}

#[test]
fn a_manifest_lists_the_files_of_a_job() {
    let m = manifest_of(&job(vec![planned("/src/a.mp3", "a", FileState::Committed)]), now());
    assert_eq!(m.job_id, "j");
    assert_eq!(m.files.len(), 1);
    assert_eq!(m.files[0].state, FileState::Committed);
    assert_eq!(manifest_path("/home/.trove", "j"), "/home/.trove/cache/manifests/j.json");
}

// --- Order of steps --------------------------------------------------------

#[test]
fn a_commit_reconciles_first_and_pushes_last() {
    let steps = import_steps(ImportCommand::CommitJob, true);
    assert_eq!(steps[0], Step::Reconcile);
    let commit = steps.iter().position(|s| *s == Step::Commit).unwrap();
    let push = steps.iter().position(|s| *s == Step::PushIndex).unwrap();
    assert!(commit < push);
    assert_eq!(steps.last(), Some(&Step::WriteManifest));
    let deep = import_steps(ImportCommand::VerifyJob { deep: true }, false);
    assert_eq!(deep, vec![Step::LoadJob, Step::DeepVerify, Step::SaveJob]);
    let run = import_steps(ImportCommand::Run, false);
    let upload = run.iter().position(|s| *s == Step::Upload).unwrap();
    let verify = run.iter().position(|s| *s == Step::Verify).unwrap();
    assert!(upload < verify && verify < run.iter().position(|s| *s == Step::Commit).unwrap());
    assert_eq!(
        resume_commands(Phase::Fingerprint),
        vec![ImportCommand::ContinuePlan, ImportCommand::RunJob]
    );
    assert_eq!(resume_commands(Phase::Upload), vec![ImportCommand::RunJob]);
    assert_eq!(full_import_commands().len(), 3);
}

#[test]
fn what_is_missing_is_named() {
    assert!(is_on_disk("/home"));
    assert!(!is_on_disk(":memory:"));
    assert!(!is_on_disk(":memory:/"));
    assert!(is_on_disk("/:memory:"));
    assert_eq!(
        select_tracks("verify", &None, false),
        Err(Error::Other("verify requires --playlist or query filters".to_string()))
    );
    assert_eq!(select_tracks("diff", &None, true), Ok(Selection::Query));
    assert_eq!(
        select_tracks("diff", &Some("p".to_string()), true),
        Ok(Selection::Playlist("p".to_string()))
    );
    assert_eq!(
        require_root(&None),
        Err(Error::Config(
            "no library root declared — set one with `trove library root --set <path>` first"
                .to_string()
        ))
    );
    assert_eq!(require_root(&Some("/lib".to_string())), Ok("/lib".to_string()));
    assert_eq!(require_sync_job::<u8>(None), Err(Error::not_found("active sync job")));
    assert_eq!(require_sync_job(Some(1)), Ok(1));
    assert_eq!(ImportOptions::default().include_dotfiles, false);
}
