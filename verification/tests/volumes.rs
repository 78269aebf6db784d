//! Volumes: destinations, syncs, playlists and what the commands say.

use trove_core::collections::TextMap;
use trove_core::config::{ExportLayout, PlaylistFormat};
use trove_core::db::import::{ImportJobSummary, ImportStatusReport};
use trove_core::db::transfer::{TransferRow, TransferStatus};
use trove_core::db::volume::{VolumeFileStats, VolumeFileStatus};
use trove_core::import::{ArtworkCandidate, FileState, ImportJob, ImportStats, Phase, PlannedFile};
use trove_core::model::{ArchiveEntry, Metadata, Playlist, Timestamp, TrackId, VolumeIdentity};
use trove_core::playlist::{
    add_tracks, playlist_id, remove_track, resolve_entries, row_to_playlist, PlaylistTrack,
    StoredPlaylist,
};
use trove_core::report;
use trove_core::sync::{
    check_download, destination_path, destination_paths, diff_volume, display_filename,
    export_playlist, find_entry, judge_on_disk, plan_sync, render_playlist, sanitize,
    split_name_ext, unique_destination_path, verify_volume, Direction, OnDisk, SyncPlan,
    SyncReply, SyncRun, Transfer, VolumeDiffEntry, VolumeDiffState, VolumeLookup,
};
use trove_core::volume::{
    choose_identity, is_volume_db, known_volume, record_volume, require_identity, sort_volumes,
    volume_db_path, volume_layout, VOLUME_IDENTITY_FILE,
};
use trove_core::Error;

fn now() -> Timestamp {
    Timestamp { secs: 1_767_225_600, nanos: 0 }
}

fn sample_entry(title: &str, sha: &str) -> ArchiveEntry {
    let mut metadata = Metadata::default();
    metadata.title = Some(title.to_string());
    metadata.artist = Some("Artist".to_string());
    metadata.album = Some("Album".to_string());
    metadata.file_type = Some("flac".to_string());
    ArchiveEntry {
        track_id: TrackId::from("t1"),
        object_key: format!("music/{sha}.flac"),
        size_bytes: 100,
        sha256: sha.to_string(),
        metadata,
        tags: Vec::new(),
        imported_at: now(),
        updated_at: now(),
        source_path_original: None,
        artwork_object_key: None,
        library_relative_path: None,
    }
}

fn named(id: &str, title: &str) -> ArchiveEntry {
    let mut e = sample_entry(title, &format!("sha-{id}"));
    e.track_id = TrackId::from(id);
    e
}

// --- Destinations ----------------------------------------------------------

#[test]
fn destination_uses_title_not_hash() {
    let entry = sample_entry("Cycles", "abc123");
    let path = destination_path(&entry, ExportLayout::ArtistAlbum);
    assert!(path.ends_with("Cycles.flac"));
    assert!(!path.contains("abc123"));
    assert_eq!(path, "Music/Artist/Album/Cycles.flac");
}

#[test]
fn collision_gets_suffix() {
    let a = sample_entry("Cycles", "sha-a");
    let mut b = sample_entry("Cycles", "sha-b");
    b.track_id = TrackId::from("t2");
    let mut used = TextMap::new();
    let p1 = unique_destination_path(&a, ExportLayout::Flat, &mut used);
    let p2 = unique_destination_path(&b, ExportLayout::Flat, &mut used);
    assert_ne!(p1, p2);
    assert!(p2.contains("(2)"));
    assert_eq!(p2, "Music/Cycles (2).flac");
}

#[test]
fn a_track_without_a_title_is_named_after_its_source() {
    let mut e = sample_entry("", "s");
    e.source_path_original = Some("/in/01: Intro?.WAV".to_string());
    assert_eq!(display_filename(&e), "01_ Intro_.flac");
    e.source_path_original = None;
    assert_eq!(display_filename(&e), "track.flac");
    e.metadata.file_type = Some(".".to_string());
    e.object_key = "music/x.MP3".to_string();
    assert_eq!(display_filename(&e), "track.mp3");
    e.metadata.file_type = None;
    e.metadata.artist = None;
    e.metadata.album = None;
    assert_eq!(
        destination_path(&e, ExportLayout::ArtistAlbum),
        "Music/Unknown Artist/Unknown Album/track.mp3"
    );
    assert_eq!(sanitize("a/b\\c:d*e?f\"g<h>i|j"), "a_b_c_d_e_f_g_h_i_j");
    assert_eq!(split_name_ext("a.b.c"), ("a.b".to_string(), "c".to_string()));
    assert_eq!(split_name_ext("a"), ("a".to_string(), "mp3".to_string()));
    assert_eq!(split_name_ext("a."), ("a.".to_string(), "mp3".to_string()));
    assert_eq!(split_name_ext("a.b/c"), ("a.b/c".to_string(), "mp3".to_string()));
}

#[test]
fn a_hundred_tracks_of_one_name_run_out_of_numbers() {
    let e = sample_entry("X", "s");
    let entries: Vec<ArchiveEntry> = (0..100).map(|_| e.copy()).collect();
    let paths = destination_paths(&entries, ExportLayout::Flat);
    assert_eq!(paths[1], "Music/X (2).flac");
    assert_eq!(paths[98], "Music/X (99).flac");
    assert_eq!(paths[99], "Music/X.flac");
}

// --- Plans -----------------------------------------------------------------

#[test]
fn a_plan_leaves_out_what_is_on_the_volume() {
    let entries = vec![named("1", "A"), named("2", "B"), named("3", "A")];
    let lookups = vec![
        Some(VolumeLookup {
            relative_path: "Music/B.flac".to_string(),
            status: VolumeFileStatus::Copied,
            found: OnDisk::File { size: 100 },
        }),
        None,
        Some(VolumeLookup {
            relative_path: "Music/A.flac".to_string(),
            status: VolumeFileStatus::Copied,
            found: OnDisk::File { size: 99 },
        }),
    ];
    let plan = plan_sync(&entries, &lookups, ExportLayout::Flat);
    assert_eq!(plan.already_present, vec!["1"]);
    assert_eq!(plan.transfers.len(), 2);
    assert_eq!(plan.transfers[0].relative_path, "Music/B (2).flac");
    assert_eq!(plan.transfers[0].direction, Direction::Download);
    assert_eq!(plan.transfers[1].relative_path, "Music/A.flac");
    assert_eq!(plan.bytes_remaining, 200);
}

fn row(id: &str, track: &str, attempts: u32) -> TransferRow {
    TransferRow {
        id: id.to_string(),
        job_id: "job".to_string(),
        volume_id: "v".to_string(),
        track_id: track.to_string(),
        object_key: format!("music/{track}.flac"),
        relative_path: format!("Music/{track}.flac"),
        local_path: None,
        bytes_total: 100,
        bytes_done: 0,
        status: TransferStatus::Pending,
        attempts,
    }
}

#[test]
fn a_sync_job_settles_every_transfer() {
    let rows = vec![row("r1", "1", 0), row("r2", "2", 4)];
    let mut run = SyncRun::begin(rows, vec![named("1", "A"), named("2", "B")]);
    let task = run.next().unwrap().unwrap();
    assert_eq!(task.update.status, TransferStatus::Active);
    assert_eq!(task.object_key, "music/1.flac");
    assert_eq!(task.size_bytes, 100);
    let reply = run.report(Err(Error::store("down")), "/v/Music/1.flac", now()).unwrap();
    assert_eq!(reply, SyncReply::Retry { wait_ms: 625 });
    match run.report(Ok(()), "/v/Music/1.flac", now()).unwrap() {
        SyncReply::Settled { update, file } => {
            assert_eq!(update.status, TransferStatus::Done);
            assert_eq!(update.attempts, 2);
            assert_eq!(update.local_path.as_deref(), Some("/v/Music/1.flac"));
            assert_eq!(file.status, VolumeFileStatus::Copied);
            assert_eq!(file.size_bytes, Some(100));
        }
        _ => panic!("a moved track is settled"),
    }
    match run.report(Err(Error::store("down")), "/v/Music/2.flac", now()).unwrap() {
        SyncReply::Settled { update, file } => {
            assert_eq!(update.status, TransferStatus::Failed);
            assert_eq!(update.attempts, 5);
            assert_eq!(update.bytes_done, 0);
            assert_eq!(file.status, VolumeFileStatus::Failed);
            assert_eq!(file.size_bytes, None);
        }
        _ => panic!("the fifth try is the last one"),
    }
    assert_eq!(run.next(), Ok(None));
    assert_eq!(run.finish(), (1, 1, false));
}

#[test]
fn a_transfer_of_an_unknown_track_is_an_error() {
    let run = SyncRun::begin(vec![row("r1", "gone", 0)], Vec::new());
    assert_eq!(
        run.next(),
        Err(Error::not_found("archive entry for track 'gone'"))
    );
    assert!(find_entry(&vec![named("1", "A")], "1").is_ok());
    assert_eq!(check_download("/v/x", 5, 5), Ok(()));
    assert_eq!(
        check_download("/v/x", 5, 4),
        Err(Error::Other("size mismatch for /v/x: expected 5, got 4".to_string()))
    );
}

// --- Looking at a volume ---------------------------------------------------

#[test]
fn a_volume_is_verified_by_what_is_on_disk() {
    let entries = vec![named("1", "A"), named("2", "B"), named("3", "C"), named("4", "D")];
    let disk = vec![
        OnDisk::File { size: 100 },
        OnDisk::Nothing,
        OnDisk::File { size: 99 },
        OnDisk::Other,
    ];
    let (counts, files) = verify_volume(&entries, ExportLayout::Flat, &disk, now());
    assert_eq!(counts, (1, 1, 2));
    assert_eq!(files[0].status, VolumeFileStatus::Copied);
    assert_eq!(files[0].relative_path, "Music/A.flac");
    assert_eq!(files[1].status, VolumeFileStatus::Pending);
    assert_eq!(files[2].size_bytes, None);
    assert_eq!(judge_on_disk(&entries[0], OnDisk::Other), VolumeFileStatus::Stale);
}

#[test]
fn a_volume_is_compared_without_moving_anything() {
    let entries = vec![named("1", "A"), named("2", "B"), named("3", "C"), named("4", "D")];
    let known = |found| {
        Some(VolumeLookup {
            relative_path: "x".to_string(),
            status: VolumeFileStatus::Copied,
            found,
        })
    };
    let right = OnDisk::File { size: 100 };
    let lookups = vec![known(right), known(OnDisk::Nothing), None, None];
    let diff = diff_volume(
        &entries,
        ExportLayout::Flat,
        &lookups,
        &vec![OnDisk::Nothing, right, right, OnDisk::Other],
    );
    let states: Vec<VolumeDiffState> = diff.iter().map(|d| d.state).collect();
    assert_eq!(
        states,
        vec![
            VolumeDiffState::Present,
            VolumeDiffState::Stale,
            VolumeDiffState::Present,
            VolumeDiffState::Missing
        ]
    );
    assert_eq!(diff[3].relative_path, "Music/D.flac");
}

// --- Playlists -------------------------------------------------------------

#[test]
fn playlist_files_list_their_tracks() {
    let entries = vec![named("1", "A"), named("2", "A")];
    let e = export_playlist("tonight", &entries, ExportLayout::Flat, PlaylistFormat::M3u8, true);
    assert_eq!(e.filename, "Playlists/tonight.m3u8");
    assert_eq!(e.body, "#EXTM3U\nMusic/A.flac\nMusic/A (2).flac\n");
    assert_eq!(e.relative_paths.len(), 2);
    let e = export_playlist("tonight", &entries, ExportLayout::Flat, PlaylistFormat::M3u, false);
    assert_eq!(e.filename, "Playlists/tonight.m3u");
    assert_eq!(e.body, "/Music/A.flac\n/Music/A (2).flac\n");
    assert_eq!(render_playlist(&Vec::new(), PlaylistFormat::M3u, true), "\n");
}

#[test]
fn playlist_roundtrip() {
    let mut rows: Vec<PlaylistTrack> = Vec::new();
    add_tracks(&mut rows, &[TrackId::from("a"), TrackId::from("b")]);
    assert_eq!(rows.len(), 2);
    let rows = remove_track(&rows, &TrackId::from("a"));
    assert_eq!(rows.len(), 1);
    assert_eq!(rows[0].track_id, "b");
}

#[test]
fn tracks_are_added_once_and_at_the_end() {
    let mut rows = vec![PlaylistTrack { track_id: "a".to_string(), position: 7 }];
    add_tracks(&mut rows, &[TrackId::from("b"), TrackId::from("a"), TrackId::from("c")]);
    let at: Vec<(&str, i64)> = rows.iter().map(|r| (r.track_id.as_str(), r.position)).collect();
    assert_eq!(at, vec![("a", 7), ("b", 8), ("c", 10)]);
    let before = rows.clone();
    add_tracks(&mut rows, &[TrackId::from("b")]);
    assert_eq!(rows, before);
}

#[test]
fn a_playlist_resolves_to_the_entries_that_are_known() {
    let ids = vec![TrackId::from("2"), TrackId::from("gone"), TrackId::from("1")];
    let archive = vec![named("1", "A"), named("2", "B")];
    let found = resolve_entries(&ids, &archive);
    assert_eq!(found, vec![archive[1].copy(), archive[0].copy()]);
    assert_eq!(playlist_id(Some("id".to_string()), "x"), Ok("id".to_string()));
    assert_eq!(playlist_id(None, "x"), Err(Error::not_found("playlist 'x'")));
    let stored = StoredPlaylist {
        id: "i".to_string(),
        name: "n".to_string(),
        created_at: "2026-01-01T00:00:00+00:00".to_string(),
        updated_at: "garbage".to_string(),
    };
    let later = Timestamp { secs: 5, nanos: 0 };
    let p = row_to_playlist(&stored, ids, later);
    assert_eq!(p.created_at, now());
    assert_eq!(p.updated_at, later);
    assert_eq!(p.track_ids.len(), 3);
}

// --- Volumes ---------------------------------------------------------------

fn identity(id: &str, label: Option<&str>) -> VolumeIdentity {
    VolumeIdentity {
        volume_id: id.to_string(),
        label: label.map(str::to_string),
        created_at: now(),
    }
}

#[test]
fn a_volume_keeps_its_identity() {
    let (i, fresh) = choose_identity(Some(identity("v", Some("old"))), Some("new".to_string()));
    assert_eq!(i, identity("v", Some("old")));
    assert!(!fresh);
    let (i, fresh) = choose_identity(None, Some("new".to_string()));
    assert_eq!(i.label.as_deref(), Some("new"));
    assert!(!i.volume_id.is_empty());
    assert!(fresh);
    let (j, _) = choose_identity(None, None);
    assert_ne!(i.volume_id, j.volume_id);
}

#[test]
fn a_volume_is_noted_once() {
    let home = Some("/h".to_string());
    let v = identity("v", Some("Gig"));
    let r = record_volume(&v, "/mnt", &home, true, true).unwrap();
    assert_eq!(r.path, "/h/volumes/v.sqlite");
    let meta: Vec<(&str, &str)> = r.meta.iter().map(|(k, v)| (k.as_str(), v.as_str())).collect();
    assert_eq!(meta, vec![("volume_id", "v"), ("label", "Gig"), ("mount_point", "/mnt")]);
    assert_eq!(record_volume(&v, "/mnt", &home, false, true), None);
    assert_eq!(record_volume(&v, "/mnt", &Some(":memory:".to_string()), true, false), None);
    assert_eq!(record_volume(&v, "/mnt", &None, true, false), None);
    let bare = record_volume(&identity("v", None), "/mnt", &home, false, false).unwrap();
    assert_eq!(bare.meta.len(), 2);
    assert_ne!(volume_db_path("/h", "a"), volume_db_path("/h", "b"));
}

#[test]
fn nothing_is_initialized_where_nothing_is_mounted() {
    assert_eq!(volume_layout("/gone", false), Err(Error::not_found("mount point /gone")));
    let l = volume_layout("/mnt", true).unwrap();
    assert_eq!(l.music, "/mnt/Music");
    assert_eq!(l.playlists, "/mnt/Playlists");
    assert_eq!(l.identity, format!("/mnt/{VOLUME_IDENTITY_FILE}"));
    assert_eq!(require_identity(None), Err(Error::not_found("volume identity on mount")));
    assert!(require_identity(Some(identity("v", None))).is_ok());
}

#[test]
fn known_volumes_are_listed_by_id() {
    assert!(is_volume_db("/h/volumes/v.sqlite"));
    assert!(!is_volume_db("/h/volumes/v.sqlite-wal"));
    let a = known_volume("/h/volumes/stem.sqlite", None, None, now());
    assert_eq!(a.volume_id, "stem");
    let b = known_volume("/h/volumes/x.sqlite", Some("id".to_string()), None, now());
    assert_eq!(b.volume_id, "id");
    assert_eq!(sort_volumes(&vec![a.copy(), b.copy()]), vec![b, a]);
}

// --- What the commands say -------------------------------------------------

#[test]
fn import_commands_report() {
    let job = ImportJob {
        id: "j".to_string(),
        source_root: "/src".to_string(),
        staging_prefix: "staging/j".to_string(),
        phase: Phase::Verify,
        files: vec![PlannedFile::pending("/src/a.mp3"), PlannedFile::pending("/src/b.mp3")],
        artwork: vec![ArtworkCandidate {
            path: "/src/cover.jpg".to_string(),
            sha256: "s".to_string(),
            size: 1,
            source_folder: "/src".to_string(),
            object_key: None,
        }],
    };
    let mut job = job;
    job.files[0].state = FileState::Duplicate;
    job.files[1].state = FileState::Verified;
    assert_eq!(
        report::planned_job(&job),
        vec![
            "planned job j: 2 file(s), 1 duplicate(s), 1 cover-art candidate(s)",
            "  duplicate  /src/a.mp3",
            "   verified  /src/b.mp3",
            "    artwork  /src/cover.jpg",
        ]
    );
    assert_eq!(report::run_result(&job), "job j phase=verify verified=1 failed=0");
    assert_eq!(
        report::import_line("j", 2, 1),
        "job j: committed 2 track(s), captured 1 cover-art object(s)"
    );
    assert_eq!(report::commit_line("j", 12), "committed 12 track(s) for job j");
    assert_eq!(
        report::resume_hint("j"),
        "run `trove import commit j` when ready to promote"
    );
    assert_eq!(report::prune_line("j"), "pruned import job j");
    assert_eq!(report::require_source(&Some("/m".to_string())), Ok("/m".to_string()));
    assert_eq!(
        report::require_source(&None),
        Err(Error::Other("import requires a source path or subcommand".to_string()))
    );
    let stats =
        ImportStats { total: 5, duplicates: 1, uploaded: 0, verified: 0, committed: 3, failed: 1 };
    let status = ImportStatusReport {
        id: "j".to_string(),
        source_root: "/src".to_string(),
        phase: Phase::Done,
        stats,
        created_at: now(),
        updated_at: now(),
    };
    assert_eq!(
        report::status_line(&status),
        "job j  phase=done  total=5 committed=3 failed=1 duplicates=1"
    );
    let summary = ImportJobSummary {
        id: "j".to_string(),
        source_root: "/src".to_string(),
        phase: Phase::Upload,
        total_files: 5,
        stats,
        created_at: now(),
        updated_at: now(),
    };
    assert_eq!(
        report::job_line(&summary, "today"),
        "j  /src  phase=upload  files=5 committed=3 failed=1  updated=today"
    );
}

#[test]
fn query_and_playlist_commands_report() {
    let mut e = named("1", "A");
    e.metadata.key = Some("8A".to_string());
    assert_eq!(
        report::match_line(&e, &Some("120".to_string())),
        "1  Artist - A [120 BPM 8A]"
    );
    e.metadata = Metadata::default();
    assert_eq!(report::match_line(&e, &None), "1  ? - ? [-]");
    let p = Playlist {
        id: "i".to_string(),
        name: "n".to_string(),
        created_at: now(),
        updated_at: now(),
        track_ids: Vec::new(),
    };
    assert_eq!(report::created_line(&p), "created playlist 'n' (i)");
    assert_eq!(report::playlist_line(&p), "i  n");
    assert_eq!(report::added_line(2, "n"), "added 2 track(s) to 'n'");
    assert_eq!(report::removed_line("1", "n"), "removed 1 from 'n'");
    assert_eq!(report::pushed_line(7), "pushed canonical index at generation 7");
}

#[test]
fn volume_and_sync_commands_report() {
    let v = identity("v", None);
    assert_eq!(report::initialized_line(&v, "/mnt"), "initialized volume v at /mnt");
    assert_eq!(report::volume_line(&v), "v  -");
    let stats = VolumeFileStats { copied: 1, pending: 2, stale: 3, failed: 4, total: 10 };
    assert_eq!(
        report::volume_status_line(&identity("v", Some("Gig")), &stats),
        "volume v (label: Gig)  copied=1 pending=2 stale=3 failed=4"
    );
    let d = VolumeDiffEntry {
        track_id: TrackId::from("1"),
        relative_path: "Music/A.flac".to_string(),
        state: VolumeDiffState::Stale,
    };
    assert_eq!(report::diff_line(&d), "  stale  1  Music/A.flac");
    let plan = SyncPlan {
        transfers: vec![Transfer {
            track_id: "1".to_string(),
            object_key: "music/x.flac".to_string(),
            relative_path: "Music/A.flac".to_string(),
            direction: Direction::Download,
            bytes_total: 9,
        }],
        already_present: vec!["2".to_string()],
        bytes_remaining: 9,
    };
    assert_eq!(
        report::sync_plan("n", "/mnt", &plan),
        vec![
            "sync plan for 'n' -> /mnt: 1 transfer(s), 9 byte(s), 1 already present",
            "  music/x.flac -> Music/A.flac",
        ]
    );
    assert_eq!(
        report::synced_line("n", "/mnt", 1, 2, 3),
        "synced 'n' -> /mnt: 1 transferred, 2 failed, 3 skipped"
    );
    assert_eq!(report::resumed_line(1, 0), "resumed sync: 1 transferred, 0 failed");
    assert_eq!(
        report::verified_line("/mnt", 1, 2, 3),
        "verify /mnt: 1 present, 2 missing, 3 stale"
    );
}
