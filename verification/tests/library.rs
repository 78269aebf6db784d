//! The library root: slugs, the shape scan, plans, their event log and claims.

use trove_core::archive::BucketPaths;
use trove_core::library::board::{is_plan_for, plan_id_of, plan_keys_of, ClaimRun};
use trove_core::library::claim::refusal_message;
use trove_core::library::shape::{Entry, RootListing};
use trove_core::library::{
    build_plan, check_chunk_stats, compute_slug, fold_chunk_status, pick_next_chunk,
    plan_slug_backfill, resolve_chunk_targets, scan_library_shape, BackfillPlan, ChunkEvent,
    ChunkEventKind, ChunkState, ChunkStatus, LibraryShape, PickNextError, PlanChunk, ShapeOptions,
    SubtreeShape,
};
use trove_core::model::{ArchiveEntry, Metadata, Timestamp, TrackId};
use trove_core::path::same_path;
use trove_core::Error;

// --- Slugs -----------------------------------------------------------------

#[test]
fn computes_relative_slug_under_the_library_root() {
    let root = "/Volumes/T7/music/library";
    let path = "/Volumes/T7/music/library/Theo Parrish/Sound Signature.flac";
    assert_eq!(
        compute_slug(root, path).as_deref(),
        Some("Theo Parrish/Sound Signature.flac")
    );
}

#[test]
fn same_relative_structure_under_a_different_root_produces_the_same_slug() {
    let slug_a = compute_slug(
        "/Volumes/T7/music/library",
        "/Volumes/T7/music/library/Theo Parrish/Sound Signature.flac",
    );
    let slug_b = compute_slug(
        "/Volumes/T72/choons",
        "/Volumes/T72/choons/Theo Parrish/Sound Signature.flac",
    );
    assert_eq!(slug_a, slug_b);
    assert!(slug_a.is_some());
}

#[test]
fn returns_none_when_path_is_not_under_the_root() {
    let root = "/Volumes/T7/music/library";
    let path = "/Volumes/T7/other-stuff/track.mp3";
    assert_eq!(compute_slug(root, path), None);
}

#[test]
fn nfd_and_nfc_forms_of_the_same_name_produce_the_same_slug() {
    let nfd_name = "Cafe\u{301}.mp3";
    let root = "/lib";
    let path_nfd = format!("/lib/{nfd_name}");
    let path_nfc = "/lib/Café.mp3";

    let slug_from_nfd_input = compute_slug(root, &path_nfd).unwrap();
    let slug_from_nfc_input = compute_slug(root, path_nfc).unwrap();
    assert_eq!(slug_from_nfd_input, slug_from_nfc_input);
    assert_eq!(slug_from_nfd_input, "Café.mp3");
}

#[test]
fn never_produces_a_leading_slash() {
    let slug = compute_slug("/lib", "/lib/track.mp3").unwrap();
    assert!(!slug.starts_with('/'), "slug was {slug:?}");
}

#[test]
fn a_root_has_no_slug_of_its_own_to_share() {
    assert_eq!(compute_slug("/lib", "/library/track.mp3"), None);
    assert_eq!(compute_slug("/lib/", "/lib//a/./b.mp3").as_deref(), Some("a/b.mp3"));
}

// --- Shape -----------------------------------------------------------------

fn file(path: &str, size: u64) -> Entry {
    Entry::File { path: path.to_string(), size }
}

fn dir(path: &str, entries: Vec<Entry>) -> Entry {
    Entry::Dir { path: path.to_string(), entries }
}

fn listing(entries: Vec<Entry>) -> RootListing {
    RootListing::Directory { entries }
}

#[test]
fn reports_per_subtree_counts_bytes_and_depth_without_reading_audio_content() {
    let entries = vec![
        dir(
            "/lib/Artist A",
            vec![file("/lib/Artist A/Track 1.mp3", 5), file("/lib/Artist A/Track 2.flac", 7)],
        ),
        dir(
            "/lib/Artist B",
            vec![
                dir("/lib/Artist B/Sub", vec![file("/lib/Artist B/Sub/Deep.mp3", 3)]),
                file("/lib/Artist B/cover.jpg", 23),
            ],
        ),
    ];
    let shape = scan_library_shape("/lib", &listing(entries), &ShapeOptions::default()).unwrap();

    assert_eq!(shape.subtrees.len(), 2);

    let artist_a = shape
        .subtrees
        .iter()
        .find(|s| s.relative_path.as_deref() == Some("Artist A"))
        .unwrap();
    assert_eq!(artist_a.audio_file_count, 2);
    assert_eq!(artist_a.audio_bytes, 5 + 7);
    assert_eq!(artist_a.total_file_count, 2);
    assert_eq!(artist_a.max_depth, 1);

    let artist_b = shape
        .subtrees
        .iter()
        .find(|s| s.relative_path.as_deref() == Some("Artist B"))
        .unwrap();
    assert_eq!(artist_b.audio_file_count, 1);
    assert_eq!(artist_b.total_file_count, 2, "cover.jpg counts toward total, not audio");
    assert_eq!(artist_b.max_depth, 2, "Deep.mp3 is two levels below the root");

    assert_eq!(shape.audio_file_count, 3);
    assert_eq!(shape.total_file_count, 4);
    assert_eq!(shape.max_depth, 2);
    assert!(shape.root_files.is_none());
}

#[test]
fn tracks_loose_files_sitting_directly_in_the_root_separately_from_subtrees() {
    let entries = vec![
        file("/lib/loose.mp3", 5),
        dir("/lib/Artist", vec![file("/lib/Artist/Track.mp3", 3)]),
    ];
    let shape = scan_library_shape("/lib", &listing(entries), &ShapeOptions::default()).unwrap();

    let root_files = shape.root_files.expect("loose.mp3 sits directly in root");
    assert_eq!(root_files.relative_path, None);
    assert_eq!(root_files.audio_file_count, 1);
    assert_eq!(root_files.max_depth, 0);
    assert_eq!(shape.subtrees.len(), 1);
    assert_eq!(shape.audio_file_count, 2);
}

#[test]
fn dotfiles_are_excluded_by_default_and_included_on_request() {
    let entries = || {
        vec![
            dir(
                "/lib/Artist",
                vec![file("/lib/Artist/Track.mp3", 3), file("/lib/Artist/.hidden.mp3", 5)],
            ),
            file("/lib/.DS_Store", 4),
        ]
    };

    let default_shape =
        scan_library_shape("/lib", &listing(entries()), &ShapeOptions::default()).unwrap();
    assert_eq!(default_shape.audio_file_count, 1);
    assert!(default_shape.root_files.is_none());

    let with_dotfiles = scan_library_shape(
        "/lib",
        &listing(entries()),
        &ShapeOptions { include_dotfiles: true },
    )
    .unwrap();
    assert_eq!(with_dotfiles.audio_file_count, 2);
    assert!(with_dotfiles.root_files.is_some());
}

#[test]
fn refuses_a_root_that_is_not_a_directory() {
    let r = scan_library_shape(
        "/does-not-exist",
        &RootListing::NotADirectory,
        &ShapeOptions::default(),
    );
    assert_eq!(
        r,
        Err(Error::NotFound(
            "library root not found or not a directory: /does-not-exist".to_string()
        ))
    );
}

#[test]
fn empty_root_reports_zeroed_totals_and_no_subtrees() {
    let shape = scan_library_shape("/lib", &listing(vec![]), &ShapeOptions::default()).unwrap();
    assert!(shape.subtrees.is_empty());
    assert!(shape.root_files.is_none());
    assert_eq!(shape.total_file_count, 0);
    assert_eq!(shape.max_depth, 0);
}

#[test]
fn subtrees_come_in_path_order() {
    let entries = vec![
        dir("/lib/b", vec![file("/lib/b/1.mp3", 1)]),
        dir("/lib/a", vec![file("/lib/a/1.mp3", 1)]),
        dir("/lib/a b", vec![file("/lib/a b/1.mp3", 1)]),
    ];
    let shape = scan_library_shape("/lib", &listing(entries), &ShapeOptions::default()).unwrap();
    let names: Vec<&str> =
        shape.subtrees.iter().map(|s| s.relative_path.as_deref().unwrap()).collect();
    assert_eq!(names, vec!["a", "a b", "b"]);
}

// --- Plans -----------------------------------------------------------------

fn subtree(name: &str, audio: u64, bytes: u64) -> SubtreeShape {
    SubtreeShape {
        relative_path: Some(name.to_string()),
        audio_file_count: audio,
        audio_bytes: bytes,
        total_file_count: audio,
        total_bytes: bytes,
        max_depth: 1,
    }
}

#[test]
fn one_folder_per_chunk_by_default() {
    let shape = LibraryShape {
        root: "/lib".to_string(),
        subtrees: vec![
            subtree("Artist A", 10, 1000),
            subtree("Artist B", 5, 500),
            subtree("Artist C", 20, 2000),
        ],
        root_files: None,
        audio_file_count: 35,
        audio_bytes: 3500,
        total_file_count: 35,
        total_bytes: 3500,
        max_depth: 1,
    };
    let plan = build_plan("p1".into(), "2026-01-01T00:00:00Z".into(), &shape, 1);
    assert_eq!(plan.chunks.len(), 3);
    assert_eq!(plan.chunks[0].folders, vec!["Artist A"]);
    assert_eq!(plan.chunks[0].estimated_audio_file_count, 10);
    assert_eq!(plan.chunks[1].folders, vec!["Artist B"]);
    assert_eq!(plan.chunks[2].folders, vec!["Artist C"]);
    assert_eq!(plan.chunks[2].chunk_id, "2");
}

#[test]
fn grouping_lever_bundles_n_folders_per_chunk() {
    let shape = LibraryShape {
        root: "/lib".to_string(),
        subtrees: vec![
            subtree("A", 1, 100),
            subtree("B", 2, 200),
            subtree("C", 3, 300),
            subtree("D", 4, 400),
            subtree("E", 5, 500),
        ],
        root_files: None,
        audio_file_count: 15,
        audio_bytes: 1500,
        total_file_count: 15,
        total_bytes: 1500,
        max_depth: 1,
    };
    let plan = build_plan("p1".into(), "2026-01-01T00:00:00Z".into(), &shape, 2);
    assert_eq!(plan.chunks.len(), 3);
    assert_eq!(plan.chunks[0].folders, vec!["A", "B"]);
    assert_eq!(plan.chunks[0].estimated_audio_file_count, 3);
    assert_eq!(plan.chunks[1].folders, vec!["C", "D"]);
    assert_eq!(plan.chunks[2].folders, vec!["E"], "a trailing partial group is still its own chunk");
}

#[test]
fn root_loose_files_fold_into_the_first_chunk_not_a_synthetic_one() {
    let shape = LibraryShape {
        root: "/lib".to_string(),
        subtrees: vec![subtree("Artist A", 10, 1000), subtree("Artist B", 5, 500)],
        root_files: Some(SubtreeShape {
            relative_path: None,
            audio_file_count: 2,
            audio_bytes: 200,
            total_file_count: 3,
            total_bytes: 300,
            max_depth: 0,
        }),
        audio_file_count: 17,
        audio_bytes: 1700,
        total_file_count: 18,
        total_bytes: 1800,
        max_depth: 1,
    };
    let plan = build_plan("p1".into(), "2026-01-01T00:00:00Z".into(), &shape, 1);
    assert_eq!(plan.chunks.len(), 2, "no extra chunk invented for loose files");
    assert!(plan.chunks[0].includes_root_files);
    assert!(!plan.chunks[1].includes_root_files);
    assert_eq!(plan.chunks[0].estimated_audio_file_count, 12);
    assert_eq!(plan.chunks[0].estimated_total_file_count, 13);
}

#[test]
fn root_loose_files_alone_still_produce_a_chunk_even_with_no_subdirectories() {
    let shape = LibraryShape {
        root: "/lib".to_string(),
        subtrees: vec![],
        root_files: Some(SubtreeShape {
            relative_path: None,
            audio_file_count: 4,
            audio_bytes: 400,
            total_file_count: 4,
            total_bytes: 400,
            max_depth: 0,
        }),
        audio_file_count: 4,
        audio_bytes: 400,
        total_file_count: 4,
        total_bytes: 400,
        max_depth: 0,
    };
    let plan = build_plan("p1".into(), "2026-01-01T00:00:00Z".into(), &shape, 1);
    assert_eq!(plan.chunks.len(), 1);
    assert!(plan.chunks[0].includes_root_files);
    assert!(plan.chunks[0].folders.is_empty());
}

#[test]
fn empty_library_produces_an_empty_plan() {
    let shape = LibraryShape {
        root: "/lib".to_string(),
        subtrees: vec![],
        root_files: None,
        audio_file_count: 0,
        audio_bytes: 0,
        total_file_count: 0,
        total_bytes: 0,
        max_depth: 0,
    };
    let plan = build_plan("p1".into(), "2026-01-01T00:00:00Z".into(), &shape, 1);
    assert!(plan.chunks.is_empty());
}

#[test]
fn chunk_folders_of_zero_is_treated_as_one() {
    let shape = LibraryShape {
        root: "/lib".to_string(),
        subtrees: vec![subtree("A", 1, 100), subtree("B", 1, 100)],
        root_files: None,
        audio_file_count: 2,
        audio_bytes: 200,
        total_file_count: 2,
        total_bytes: 200,
        max_depth: 1,
    };
    let plan = build_plan("p1".into(), "2026-01-01T00:00:00Z".into(), &shape, 0);
    assert_eq!(plan.chunk_folders, 1);
    assert_eq!(plan.chunks.len(), 2);
}

#[test]
fn a_plan_covers_every_folder_once_and_adds_up() {
    let shape = LibraryShape {
        root: "/lib".to_string(),
        subtrees: vec![subtree("A", 1, 10), subtree("B", 2, 20), subtree("C", 3, 30)],
        root_files: None,
        audio_file_count: 6,
        audio_bytes: 60,
        total_file_count: 6,
        total_bytes: 60,
        max_depth: 1,
    };
    let plan = build_plan("p".into(), "t".into(), &shape, 2);
    let folders: Vec<String> = plan.chunks.iter().flat_map(|c| c.folders.clone()).collect();
    assert_eq!(folders, vec!["A", "B", "C"]);
    let bytes: u64 = plan.chunks.iter().map(|c| c.estimated_audio_bytes).sum();
    assert_eq!(bytes, 60);
}

// --- Events ----------------------------------------------------------------

fn plan_with_chunks(chunk_ids: &[&str]) -> BackfillPlan {
    BackfillPlan {
        plan_id: "p1".to_string(),
        library_root: "/lib".to_string(),
        created_at: "2026-01-01T00:00:00Z".to_string(),
        chunk_folders: 1,
        chunks: chunk_ids
            .iter()
            .map(|id| PlanChunk {
                chunk_id: id.to_string(),
                folders: vec![id.to_string()],
                includes_root_files: false,
                estimated_audio_file_count: 1,
                estimated_audio_bytes: 1,
                estimated_total_file_count: 1,
                estimated_total_bytes: 1,
            })
            .collect(),
    }
}

fn event(chunk_id: &str, kind: ChunkEventKind, by: &str, at: &str) -> ChunkEvent {
    ChunkEvent {
        event_id: format!("{chunk_id}-{by}-{at}"),
        chunk_id: chunk_id.to_string(),
        kind,
        by: by.to_string(),
        at: at.to_string(),
    }
}

#[test]
fn a_chunk_with_no_events_is_untouched() {
    let plan = plan_with_chunks(&["0", "1"]);
    let statuses = fold_chunk_status(&plan, &[]);
    assert_eq!(statuses.len(), 2);
    assert!(statuses.iter().all(|s| s.state == ChunkState::Untouched));
}

#[test]
fn a_claim_with_no_completion_is_claimed_not_completed() {
    let plan = plan_with_chunks(&["0"]);
    let events = vec![event("0", ChunkEventKind::Claimed, "machine-a", "t1")];
    let statuses = fold_chunk_status(&plan, &events);
    assert_eq!(statuses[0].state, ChunkState::Claimed);
    assert_eq!(statuses[0].claims.len(), 1);
    assert!(statuses[0].completions.is_empty());
}

#[test]
fn a_completion_wins_over_a_claim_regardless_of_event_order() {
    let plan = plan_with_chunks(&["0"]);
    let events = vec![
        event("0", ChunkEventKind::Completed, "machine-a", "t1"),
        event("0", ChunkEventKind::Claimed, "machine-a", "t0"),
    ];
    let statuses = fold_chunk_status(&plan, &events);
    assert_eq!(statuses[0].state, ChunkState::Completed);
}

#[test]
fn redundant_claims_and_completions_from_two_machines_are_all_kept_not_deduped() {
    let plan = plan_with_chunks(&["0"]);
    let events = vec![
        event("0", ChunkEventKind::Claimed, "machine-a", "t0"),
        event("0", ChunkEventKind::Claimed, "machine-b", "t1"),
        event("0", ChunkEventKind::Completed, "machine-a", "t2"),
        event("0", ChunkEventKind::Completed, "machine-b", "t3"),
    ];
    let statuses = fold_chunk_status(&plan, &events);
    assert_eq!(statuses[0].state, ChunkState::Completed);
    assert_eq!(statuses[0].claims.len(), 2);
    assert_eq!(statuses[0].completions.len(), 2);
}

#[test]
fn events_are_scoped_to_their_own_chunk() {
    let plan = plan_with_chunks(&["0", "1"]);
    let events = vec![event("0", ChunkEventKind::Completed, "machine-a", "t0")];
    let statuses = fold_chunk_status(&plan, &events);
    assert_eq!(statuses[0].state, ChunkState::Completed);
    assert_eq!(statuses[1].state, ChunkState::Untouched);
}

#[test]
fn results_are_returned_in_the_plans_own_chunk_order() {
    let plan = plan_with_chunks(&["2", "0", "1"]);
    let statuses = fold_chunk_status(&plan, &[]);
    let ids: Vec<&str> = statuses.iter().map(|s| s.chunk_id.as_str()).collect();
    assert_eq!(ids, vec!["2", "0", "1"]);
}

#[test]
fn an_event_for_an_unknown_chunk_id_is_silently_ignored() {
    let plan = plan_with_chunks(&["0"]);
    let events = vec![event("does-not-exist", ChunkEventKind::Completed, "machine-a", "t0")];
    let statuses = fold_chunk_status(&plan, &events);
    assert_eq!(statuses.len(), 1);
    assert_eq!(statuses[0].state, ChunkState::Untouched);
}

#[test]
fn events_are_listed_oldest_first() {
    let plan = plan_with_chunks(&["0"]);
    let events = vec![
        event("0", ChunkEventKind::Claimed, "late", "t2"),
        event("0", ChunkEventKind::Claimed, "early", "t1"),
        event("0", ChunkEventKind::Claimed, "also late", "t2"),
    ];
    let statuses = fold_chunk_status(&plan, &events);
    let by: Vec<&str> = statuses[0].claims.iter().map(|e| e.by.as_str()).collect();
    assert_eq!(by, vec!["early", "late", "also late"]);
}

// --- Claims ----------------------------------------------------------------

fn status(chunk_id: &str, state: ChunkState) -> ChunkStatus {
    let event = |kind| ChunkEvent {
        event_id: "e".to_string(),
        chunk_id: chunk_id.to_string(),
        kind,
        by: "someone".to_string(),
        at: "t0".to_string(),
    };
    ChunkStatus {
        chunk_id: chunk_id.to_string(),
        state,
        claims: if state == ChunkState::Untouched {
            vec![]
        } else {
            vec![event(ChunkEventKind::Claimed)]
        },
        completions: if state == ChunkState::Completed {
            vec![event(ChunkEventKind::Completed)]
        } else {
            vec![]
        },
    }
}

#[test]
fn an_explicit_chunk_id_is_always_honored_regardless_of_status() {
    let plan = plan_with_chunks(&["0", "1"]);
    let statuses = vec![
        status("0", ChunkState::Completed),
        status("1", ChunkState::Untouched),
    ];
    assert_eq!(
        pick_next_chunk(&plan, &statuses, Some("0"), false),
        Ok("0".to_string())
    );
}

#[test]
fn an_explicit_unknown_chunk_id_is_rejected() {
    let plan = plan_with_chunks(&["0"]);
    let statuses = vec![status("0", ChunkState::Untouched)];
    assert_eq!(
        pick_next_chunk(&plan, &statuses, Some("nope"), false),
        Err(PickNextError::UnknownChunkId("nope".to_string()))
    );
}

#[test]
fn prefers_the_first_untouched_chunk_in_plan_order() {
    let plan = plan_with_chunks(&["0", "1", "2"]);
    let statuses = vec![
        status("0", ChunkState::Completed),
        status("1", ChunkState::Untouched),
        status("2", ChunkState::Untouched),
    ];
    assert_eq!(
        pick_next_chunk(&plan, &statuses, None, false),
        Ok("1".to_string())
    );
}

#[test]
fn refuses_when_nothing_is_untouched_and_include_claimed_is_not_set() {
    let plan = plan_with_chunks(&["0", "1"]);
    let statuses = vec![
        status("0", ChunkState::Completed),
        status("1", ChunkState::Claimed),
    ];
    assert_eq!(
        pick_next_chunk(&plan, &statuses, None, false),
        Err(PickNextError::NoUntouchedChunksRemain)
    );
}

#[test]
fn include_claimed_picks_the_first_not_yet_completed_chunk() {
    let plan = plan_with_chunks(&["0", "1"]);
    let statuses = vec![
        status("0", ChunkState::Completed),
        status("1", ChunkState::Claimed),
    ];
    assert_eq!(
        pick_next_chunk(&plan, &statuses, None, true),
        Ok("1".to_string())
    );
}

#[test]
fn include_claimed_refuses_only_when_truly_everything_is_completed() {
    let plan = plan_with_chunks(&["0", "1"]);
    let statuses = vec![
        status("0", ChunkState::Completed),
        status("1", ChunkState::Completed),
    ];
    assert_eq!(
        pick_next_chunk(&plan, &statuses, None, true),
        Err(PickNextError::AllChunksCompleted)
    );
}

#[test]
fn resolves_folders_to_absolute_paths_under_the_library_root() {
    let chunk = PlanChunk {
        chunk_id: "0".to_string(),
        folders: vec!["Artist A".to_string(), "Artist B".to_string()],
        includes_root_files: false,
        estimated_audio_file_count: 0,
        estimated_audio_bytes: 0,
        estimated_total_file_count: 0,
        estimated_total_bytes: 0,
    };
    let targets = resolve_chunk_targets("/lib", &chunk, &[]);
    assert_eq!(targets, vec!["/lib/Artist A".to_string(), "/lib/Artist B".to_string()]);
}

#[test]
fn includes_loose_root_files_only_when_the_chunk_covers_them() {
    let loose = vec!["/lib/loose.mp3".to_string()];

    let with_root_files = PlanChunk {
        chunk_id: "0".to_string(),
        folders: vec!["Artist A".to_string()],
        includes_root_files: true,
        estimated_audio_file_count: 0,
        estimated_audio_bytes: 0,
        estimated_total_file_count: 0,
        estimated_total_bytes: 0,
    };
    let targets = resolve_chunk_targets("/lib", &with_root_files, &loose);
    assert_eq!(targets, vec!["/lib/Artist A".to_string(), "/lib/loose.mp3".to_string()]);

    let without_root_files = PlanChunk { includes_root_files: false, ..with_root_files };
    let targets = resolve_chunk_targets("/lib", &without_root_files, &loose);
    assert_eq!(targets, vec!["/lib/Artist A".to_string()]);
}

#[test]
fn refusals_name_the_plan() {
    assert_eq!(
        refusal_message("p1", &PickNextError::NoUntouchedChunksRemain),
        "no untouched chunks remain in backfill plan p1"
    );
    assert_eq!(
        refusal_message("p1", &PickNextError::AllChunksCompleted),
        "every chunk is already completed in backfill plan p1"
    );
    assert_eq!(
        refusal_message("p1", &PickNextError::UnknownChunkId("9".to_string())),
        "backfill plan p1 has no chunk 9"
    );
}

#[test]
fn a_claim_runs_from_pick_to_completion() {
    let mut plan = plan_with_chunks(&["0", "1"]);
    plan.chunks[0].folders = vec!["Artist A".to_string()];
    plan.chunks[0].includes_root_files = true;
    plan.chunks[0].estimated_audio_file_count = 2;
    plan.chunks[0].estimated_audio_bytes = 10;
    let loose = vec!["/lib/Loose.mp3".to_string()];
    let mut log: Vec<ChunkEvent> = Vec::new();

    let mut run = ClaimRun::begin(&plan, &log, None, false, &loose).ok().unwrap();
    log.push(run.claim_event("e1", "machine-a", "t0"));
    assert_eq!(run.completion_event("e2", "machine-a", "t1"), None);
    assert_eq!(run.next_target().as_deref(), Some("/lib/Artist A"));
    run.imported(1, 1, 5);
    assert_eq!(run.next_target().as_deref(), Some("/lib/Loose.mp3"));
    run.imported(1, 1, 5);
    assert_eq!(run.next_target(), None);
    log.push(run.completion_event("e2", "machine-a", "t1").unwrap());

    let report = run.report();
    assert_eq!(report.chunk_id, "0");
    assert_eq!(report.targets.len(), 2, "Artist A folder + Loose.mp3");
    assert_eq!(report.tracks_committed, 2);
    assert!(!report.stat_check.mismatch);

    let statuses = fold_chunk_status(&plan, &log);
    assert_eq!(statuses[0].state, ChunkState::Completed);
    assert_eq!(statuses[1].state, ChunkState::Untouched);

    let run = ClaimRun::begin(&plan, &log, None, false, &loose).ok().unwrap();
    assert_eq!(run.report().chunk_id, "1");
}

#[test]
fn a_claim_flags_a_folder_that_has_changed() {
    let plan = plan_with_chunks(&["Artist"]);
    let mut run = ClaimRun::begin(&plan, &[], None, false, &[]).ok().unwrap();
    run.imported(11, 11, 565);
    let report = run.report();
    assert!(report.stat_check.mismatch);
    assert_eq!(report.stat_check.estimated_audio_file_count, 1);
    assert_eq!(report.stat_check.actual_audio_file_count, 11);
    assert!(run.completion_event("e", "m", "t").is_some());
}

#[test]
fn a_refused_claim_says_why() {
    let plan = plan_with_chunks(&["0"]);
    let done = vec![event("0", ChunkEventKind::Completed, "m", "t")];
    let e = ClaimRun::begin(&plan, &[], Some("does-not-exist"), false, &[]).err().unwrap();
    assert!(e.message().contains("does-not-exist"));
    let e = ClaimRun::begin(&plan, &done, None, false, &[]).err().unwrap();
    assert!(e.message().contains("no untouched chunks remain"));
    let e = ClaimRun::begin(&plan, &done, None, true, &[]).err().unwrap();
    assert!(e.message().contains("every chunk is already completed"));
}

#[test]
fn only_plan_documents_are_listed_as_plans() {
    let paths = BucketPaths::new(".trove/", "music");
    let plan = paths.backfill_plan("p1");
    let event = paths.chunk_event("p1", "e1");
    assert_eq!(plan, ".trove/backfill-plans/p1.json");
    assert_eq!(event, ".trove/backfill-plans/p1/events/e1.json");
    assert_eq!(plan_id_of(&paths, &plan).as_deref(), Some("p1"));
    assert_eq!(plan_id_of(&paths, &event), None);
    assert_eq!(plan_id_of(&paths, ".trove/backfill-plans/p1.txt"), None);
    assert_eq!(plan_id_of(&paths, ".trove/schema-version.json"), None);
    let keys = vec![event, plan.clone(), ".trove/backfill-plans/x".to_string()];
    assert_eq!(plan_keys_of(&paths, &keys), vec![plan]);
}

#[test]
fn plans_are_filtered_by_root() {
    let plan = plan_with_chunks(&[]);
    assert!(is_plan_for(&plan, None));
    assert!(is_plan_for(&plan, Some("/lib")));
    assert!(is_plan_for(&plan, Some("/lib/")));
    assert!(!is_plan_for(&plan, Some("/somewhere/else")));
    assert!(same_path("/a//b/.", "/a/b"));
    assert!(!same_path("/a/b", "/a/b/c"));
    assert!(!same_path("/a/b/c", "/a/b"));
}

// --- Sanity checks ---------------------------------------------------------

#[test]
fn an_exact_match_is_not_a_mismatch() {
    let check = check_chunk_stats(212, 7_000_000_000, 212, 7_000_000_000);
    assert!(!check.mismatch);
}

#[test]
fn zero_estimated_and_zero_actual_is_not_a_mismatch() {
    let check = check_chunk_stats(0, 0, 0, 0);
    assert!(!check.mismatch);
}

#[test]
fn ordinary_drift_is_not_flagged() {
    let check = check_chunk_stats(212, 7_000_000_000, 215, 7_100_000_000);
    assert!(!check.mismatch);
}

#[test]
fn the_adrs_own_illustrative_mismatch_is_flagged() {
    let check = check_chunk_stats(8, 45_000_000, 40, 300_000_000);
    assert!(check.mismatch);
}

#[test]
fn a_count_mismatch_alone_is_enough_even_if_bytes_roughly_agree() {
    let check = check_chunk_stats(10, 1_000_000, 25, 1_000_000);
    assert!(check.mismatch, "count differs by 2.5x even though bytes match");
}

#[test]
fn a_byte_mismatch_alone_is_enough_even_if_count_matches() {
    let check = check_chunk_stats(10, 1_000_000, 10, 5_000_000);
    assert!(check.mismatch, "bytes differ by 5x even though count matches");
}

#[test]
fn zero_estimated_with_any_actual_content_is_a_mismatch() {
    let check = check_chunk_stats(0, 0, 3, 1_000);
    assert!(check.mismatch);
}

#[test]
fn actual_content_disappearing_entirely_is_also_a_mismatch() {
    let check = check_chunk_stats(10, 1_000_000, 0, 0);
    assert!(check.mismatch);
}

#[test]
fn the_boundary_ratio_itself_counts_as_a_mismatch() {
    let check = check_chunk_stats(10, 1, 20, 1);
    assert!(check.mismatch);
}

// --- Slug backfill ---------------------------------------------------------

fn entry(id: &str, source_path: Option<&str>, slug: Option<&str>) -> ArchiveEntry {
    let now = Timestamp { secs: 1_767_225_600, nanos: 0 };
    ArchiveEntry {
        track_id: TrackId::from(id),
        object_key: format!("music/{id}.mp3"),
        size_bytes: 100,
        sha256: format!("sha-{id}"),
        metadata: Metadata::default(),
        tags: Vec::new(),
        imported_at: now,
        updated_at: now,
        source_path_original: source_path.map(str::to_string),
        artwork_object_key: None,
        library_relative_path: slug.map(str::to_string),
    }
}

#[test]
fn backfills_entries_whose_source_path_falls_under_the_root() {
    let root = "/Volumes/T7/music/library";
    let entries = vec![entry("a", Some("/Volumes/T7/music/library/Artist/Track.mp3"), None)];

    let (updated, report) = plan_slug_backfill(root, &entries);
    assert_eq!(report.total, 1);
    assert_eq!(report.backfilled, 1);
    assert_eq!(updated.len(), 1);
    assert_eq!(updated[0].library_relative_path.as_deref(), Some("Artist/Track.mp3"));
}

#[test]
fn leaves_entries_that_already_have_a_slug_untouched() {
    let root = "/Volumes/T7/music/library";
    let entries = vec![entry(
        "a",
        Some("/Volumes/T7/music/library/Artist/Track.mp3"),
        Some("Artist/Track.mp3"),
    )];

    let (updated, report) = plan_slug_backfill(root, &entries);
    assert_eq!(report.already_had_slug, 1);
    assert_eq!(report.backfilled, 0);
    assert!(updated.is_empty());
}

#[test]
fn leaves_entries_outside_the_root_and_without_a_source_path_alone() {
    let root = "/Volumes/T7/music/library";
    let entries = vec![
        entry("a", Some("/Volumes/Other/random.mp3"), None),
        entry("b", None, None),
    ];

    let (updated, report) = plan_slug_backfill(root, &entries);
    assert_eq!(report.outside_root, 1);
    assert_eq!(report.no_source_path, 1);
    assert_eq!(report.backfilled, 0);
    assert!(updated.is_empty());
}

#[test]
fn a_second_backfill_finds_nothing_to_do() {
    let entries = vec![entry("a", Some("/lib/x.mp3"), None)];
    let (updated, _) = plan_slug_backfill("/lib", &entries);
    let (again, report) = plan_slug_backfill("/lib", &updated);
    assert!(again.is_empty());
    assert_eq!(report.already_had_slug, 1);
    assert_eq!(updated[0].sha256, entries[0].sha256);
}
