//! What stays on a machine: configuration, databases, queries, texts and paths.

use trove_core::collections::TextMap;
use trove_core::config::{
    bucket_dir, default_config_path, load_config, merge_import_options, set_library_root,
    store_kind, trove_home, Config, ExportLayout, ImportConfig, StoreKind, LOCAL_DEFAULT_TOML,
};
use trove_core::db::archive::{
    compile_query, entry_to_row, filter_by_tags, row_to_entry, TrackRow, Value,
};
use trove_core::db::import::{
    file_stats, load_job, planned_file_to_row, row_to_planned_file, row_to_summary, status_report,
    StoredFile, StoredJob, StoredSummary,
};
use trove_core::db::transfer::{
    direction_str, row_to_sync_job, row_to_transfer, StoredSyncJob, StoredTransfer, SyncJobStatus,
    TransferStatus,
};
use trove_core::db::volume::{
    row_to_volume_file, volume_stats, StatusCount, VolumeFileRow, VolumeFileStatus,
};
use trove_core::hash::hash_bytes;
use trove_core::import::{FileState, Phase};
use trove_core::metadata::{MetadataExtractor, StubExtractor};
use trove_core::model::{ArchiveEntry, Metadata, Playlist, Timestamp, TrackId};
use trove_core::path::{
    components, extension_of, file_name_of, file_stem_of, join_path, parent_of, strip_prefix,
};
use trove_core::query::{parse_range, QuerySpec};
use trove_core::sort::{order_texts, sort_paths, text_le};
use trove_core::sync::Direction;
use trove_core::text::{decimal_text, padded_decimal_text, split_text, trim};
use trove_core::time::{format_ts, parse_dt, parse_opt, parse_ts};
use trove_core::Error;

fn now() -> Timestamp {
    Timestamp { secs: 1_767_225_600, nanos: 0 }
}

fn sample_entry(id: &str, artist: &str, bpm: f32) -> ArchiveEntry {
    let mut metadata = Metadata::default();
    metadata.artist = Some(artist.to_string());
    metadata.bpm = Some(bpm.to_bits());
    ArchiveEntry {
        track_id: TrackId::from(id),
        object_key: format!("music/{id}.flac"),
        size_bytes: 1024,
        sha256: "deadbeef".to_string(),
        metadata,
        tags: vec!["house".to_string()],
        imported_at: now(),
        updated_at: now(),
        source_path_original: None,
        artwork_object_key: None,
        library_relative_path: None,
    }
}

// --- Queries ---------------------------------------------------------------

const TRACKS: &str = "CREATE TABLE tracks (
    track_id TEXT PRIMARY KEY, object_key TEXT NOT NULL, size_bytes INTEGER NOT NULL,
    sha256 TEXT NOT NULL, title TEXT, artist TEXT, album TEXT, genre TEXT, year INTEGER,
    bpm REAL, key_camelot TEXT, duration_secs REAL, comment TEXT, file_type TEXT, tags TEXT,
    imported_at TEXT NOT NULL, updated_at TEXT NOT NULL, source_path_original TEXT,
    artwork_object_key TEXT, library_relative_path TEXT)";

fn seeded(entries: &[ArchiveEntry]) -> rusqlite::Connection {
    let conn = rusqlite::Connection::open_in_memory().unwrap();
    conn.execute(TRACKS, []).unwrap();
    for e in entries {
        let r = entry_to_row(e).unwrap();
        let real = |v: Option<f64>| match v {
            Some(x) => rusqlite::types::Value::Real(x),
            None => rusqlite::types::Value::Null,
        };
        let text = |v: Option<String>| match v {
            Some(x) => rusqlite::types::Value::Text(x),
            None => rusqlite::types::Value::Null,
        };
        let values = vec![
            text(Some(r.track_id)),
            text(Some(r.object_key)),
            rusqlite::types::Value::Integer(r.size_bytes),
            text(Some(r.sha256)),
            text(r.metadata.title),
            text(r.metadata.artist),
            text(r.metadata.album),
            text(r.metadata.genre),
            match r.metadata.year {
                Some(y) => rusqlite::types::Value::Integer(y as i64),
                None => rusqlite::types::Value::Null,
            },
            real(r.metadata.bpm.map(|b| f32::from_bits(b) as f64)),
            text(r.metadata.key),
            real(r.metadata.duration_secs.map(f64::from_bits)),
            text(r.metadata.comment),
            text(r.metadata.file_type),
            text(Some(r.tags)),
            text(Some(r.imported_at)),
            text(Some(r.updated_at)),
            text(r.source_path_original),
            text(r.artwork_object_key),
            text(r.library_relative_path),
        ];
        conn.execute(
            "INSERT INTO tracks VALUES (?1,?2,?3,?4,?5,?6,?7,?8,?9,?10,?11,?12,?13,?14,?15,?16,?17,?18,?19,?20)",
            rusqlite::params_from_iter(values),
        )
        .unwrap();
    }
    conn
}

fn run(conn: &rusqlite::Connection, spec: &QuerySpec) -> Vec<ArchiveEntry> {
    let (sql, args) = compile_query(spec);
    let args: Vec<rusqlite::types::Value> = args
        .into_iter()
        .map(|a| match a {
            Value::Text(t) => rusqlite::types::Value::Text(t),
            Value::Integer(i) => rusqlite::types::Value::Integer(i),
            Value::Real(b) => rusqlite::types::Value::Real(f32::from_bits(b) as f64),
        })
        .collect();
    let mut stmt = conn.prepare(&sql).unwrap();
    let rows = stmt
        .query_map(rusqlite::params_from_iter(args), |r| {
            let mut metadata = Metadata::default();
            metadata.title = r.get(4)?;
            metadata.artist = r.get(5)?;
            metadata.album = r.get(6)?;
            metadata.genre = r.get(7)?;
            metadata.year = r.get(8)?;
            metadata.bpm = r.get::<_, Option<f64>>(9)?.map(|b| (b as f32).to_bits());
            metadata.key = r.get(10)?;
            metadata.duration_secs = r.get::<_, Option<f64>>(11)?.map(f64::to_bits);
            metadata.comment = r.get(12)?;
            metadata.file_type = r.get(13)?;
            Ok(TrackRow {
                track_id: r.get(0)?,
                object_key: r.get(1)?,
                size_bytes: r.get(2)?,
                sha256: r.get(3)?,
                metadata,
                tags: r.get(14)?,
                imported_at: r.get(15)?,
                updated_at: r.get(16)?,
                source_path_original: r.get(17)?,
                artwork_object_key: r.get(18)?,
                library_relative_path: r.get(19)?,
            })
        })
        .unwrap();
    let entries: Vec<ArchiveEntry> =
        rows.map(|r| row_to_entry(r.unwrap(), now()).unwrap()).collect();
    filter_by_tags(entries, &spec.tags)
}

#[test]
fn query_filters_by_artist_and_bpm() {
    let conn = seeded(&[
        sample_entry("a", "Theo Parrish", 120.0),
        sample_entry("b", "Rick Wade", 122.0),
    ]);

    let results = run(&conn, &QuerySpec::new().artist("Theo Parrish"));
    assert_eq!(results.len(), 1);
    assert_eq!(results[0].track_id, TrackId::from("a"));

    let by_bpm = run(&conn, &QuerySpec::new().bpm_range(Some(121.0f32.to_bits()), None));
    assert_eq!(by_bpm.len(), 1);
    assert_eq!(by_bpm[0].track_id, TrackId::from("b"));
}

#[test]
fn rows_give_entries_back() {
    let e = sample_entry("a", "X", 120.5);
    let conn = seeded(&[e.copy()]);
    assert_eq!(run(&conn, &QuerySpec::new()), vec![e]);
}

#[test]
fn queries_take_text_tags_and_limits() {
    let mut b = sample_entry("b", "Rick Wade", 122.0);
    b.metadata.title = Some("Night Trackin'".to_string());
    b.metadata.year = Some(1999);
    b.tags.push("deep".to_string());
    let conn = seeded(&[sample_entry("a", "Theo Parrish", 120.0), b]);
    assert_eq!(run(&conn, &QuerySpec::new().text("night")).len(), 1);
    assert_eq!(run(&conn, &QuerySpec::new().text("nothing")).len(), 0);
    let mut spec = QuerySpec::new();
    spec.tags = vec!["house".to_string(), "deep".to_string()];
    assert_eq!(run(&conn, &spec).len(), 1);
    let mut spec = QuerySpec::new();
    spec.year.min = Some(1990);
    assert_eq!(run(&conn, &spec).len(), 1);
    let mut spec = QuerySpec::new();
    spec.limit = Some(1);
    assert_eq!(run(&conn, &spec).len(), 1);
    assert_eq!(run(&conn, &QuerySpec::new().genre("jazz")).len(), 0);
    assert_eq!(run(&conn, &QuerySpec::new().key("8A")).len(), 0);
}

#[test]
fn a_row_with_broken_tags_is_an_error_and_a_broken_time_is_now() {
    let mut row = entry_to_row(&sample_entry("a", "X", 1.0)).unwrap();
    assert_eq!(row.tags, "[\"house\"]");
    row.imported_at = "garbage".to_string();
    let later = Timestamp { secs: 9, nanos: 0 };
    let e = row_to_entry(row.clone(), later).unwrap();
    assert_eq!(e.imported_at, later);
    assert_eq!(e.updated_at, now());
    row.tags = "not json".to_string();
    assert!(matches!(row_to_entry(row, later), Err(Error::Serde(_))));
}

#[test]
fn ranges_are_split_at_the_colon() {
    assert_eq!(parse_range(None), Ok((None, None)));
    assert_eq!(
        parse_range(Some("118:124")),
        Ok((Some("118".to_string()), Some("124".to_string())))
    );
    assert_eq!(parse_range(Some(" : 124 ")), Ok((None, Some("124".to_string()))));
    assert_eq!(
        parse_range(Some("118")),
        Err(Error::Other("range '118' must be in min:max form".to_string()))
    );
}

// --- Stored rows -----------------------------------------------------------

#[test]
fn stored_jobs_are_read_back() {
    let stored = || StoredFile {
        path: "/a.mp3".to_string(),
        size: 3,
        mtime: None,
        sha256: "s".to_string(),
        state: "uploaded".to_string(),
        object_key: Some("k".to_string()),
        track_id: None,
        etag: None,
        error: None,
        attempts: 2,
    };
    let f = row_to_planned_file(stored());
    assert_eq!(f.state, FileState::Uploaded);
    assert_eq!(planned_file_to_row(&f), stored());
    let mut odd = stored();
    odd.state = "odd".to_string();
    assert_eq!(row_to_planned_file(odd).state, FileState::Failed);

    let job = |phase: &str| {
        Some(StoredJob {
            source_root: "/src".to_string(),
            phase: phase.to_string(),
            staging_prefix: "staging/j".to_string(),
            include_dotfiles: 0,
            capture_artwork: 1,
        })
    };
    let (j, o) = load_job("j", job("upload"), vec![stored()], Ok(Vec::new())).unwrap();
    assert_eq!(j.phase, Phase::Upload);
    assert_eq!(j.files.len(), 1);
    assert!(!o.include_dotfiles && o.capture_artwork);
    assert_eq!(
        load_job("j", None, Vec::new(), Ok(Vec::new())),
        Err(Error::not_found("import job 'j'"))
    );
    assert_eq!(
        load_job("j", job("odd"), Vec::new(), Err(Error::Serde("bad".to_string()))),
        Err(Error::Other("invalid phase 'odd' for job j".to_string()))
    );
    assert_eq!(
        load_job("j", job("upload"), Vec::new(), Err(Error::Serde("bad".to_string()))),
        Err(Error::Serde("bad".to_string()))
    );
    let stats = file_stats(&vec!["committed".to_string(), "failed".to_string(), "odd".to_string()]);
    assert_eq!(stats.total, 3);
    assert_eq!(stats.committed, 1);
    let summary = row_to_summary(
        StoredSummary {
            id: "j".to_string(),
            source_root: "/src".to_string(),
            phase: "done".to_string(),
            total_files: 3,
            created_at: "2026-01-01T00:00:00Z".to_string(),
            updated_at: "2026-01-01T00:00:00Z".to_string(),
        },
        stats,
    )
    .unwrap();
    assert_eq!(summary.created_at, now());
    assert_eq!(status_report(summary).phase, Phase::Done);
}

#[test]
fn stored_transfers_are_read_back() {
    let stored = |status: &str| StoredTransfer {
        id: "t".to_string(),
        job_id: "j".to_string(),
        volume_id: "v".to_string(),
        track_id: "1".to_string(),
        object_key: "k".to_string(),
        relative_path: "p".to_string(),
        local_path: None,
        bytes_total: 9,
        bytes_done: 0,
        status: status.to_string(),
        attempts: 1,
    };
    assert_eq!(row_to_transfer(stored("active")).unwrap().status, TransferStatus::Active);
    assert!(row_to_transfer(stored("odd")).is_err());
    assert_eq!(TransferStatus::parse("failed"), Some(TransferStatus::Failed));
    assert_eq!(SyncJobStatus::parse("done"), Some(SyncJobStatus::Done));
    assert_eq!(SyncJobStatus::Active.as_str(), "active");
    assert_eq!(direction_str(Direction::Download), "download");
    let j = row_to_sync_job(StoredSyncJob {
        id: "j".to_string(),
        volume_id: "v".to_string(),
        mount_point: "/mnt".to_string(),
        playlist_name: None,
        status: "active".to_string(),
        created_at: "2026-01-01T00:00:00Z".to_string(),
        updated_at: "garbage".to_string(),
    });
    assert!(j.is_err());
}

#[test]
fn stored_volume_files_are_read_back() {
    let row = |status: &str| VolumeFileRow {
        track_id: "1".to_string(),
        relative_path: "p".to_string(),
        size_bytes: Some(5),
        sha256: None,
        status: status.to_string(),
        last_seen_at: Some("garbage".to_string()),
    };
    let f = row_to_volume_file(row("copied")).unwrap();
    assert_eq!(f.status, VolumeFileStatus::Copied);
    assert_eq!(f.last_seen_at, None);
    assert!(row_to_volume_file(row("odd")).is_err());
    let s = volume_stats(&vec![
        StatusCount { status: "copied".to_string(), count: 2 },
        StatusCount { status: "odd".to_string(), count: 3 },
    ]);
    assert_eq!(s.copied, 2);
}

// --- Configuration ---------------------------------------------------------

#[test]
fn set_library_root_materializes_local_default_when_no_file_exists() {
    let text = set_library_root(&None, "config.toml", "/Volumes/T7/music/library").unwrap();
    assert!(text.starts_with(LOCAL_DEFAULT_TOML));
    let doc = text.parse::<toml_edit::DocumentMut>().unwrap();
    assert_eq!(doc["bucket"]["name"].as_str(), Some("local"));
    assert_eq!(doc["library"]["root"].as_str(), Some("/Volumes/T7/music/library"));
}

#[test]
fn set_library_root_preserves_existing_content_and_comments() {
    let before = r#"# a hand-written comment the operator cares about
[bucket]
name = "my-real-bucket"
region = "us-east-1"

[export]
layout = "flat"
"#;
    let text = set_library_root(
        &Some(before.to_string()),
        "config.toml",
        "/Volumes/T7/music/library",
    )
    .unwrap();
    assert!(
        text.contains("# a hand-written comment the operator cares about"),
        "must not lose comments on an existing config file:\n{text}"
    );
    assert!(text.contains("name = \"my-real-bucket\""));
    assert!(text.contains("layout = \"flat\""));
    let doc = text.parse::<toml_edit::DocumentMut>().unwrap();
    assert_eq!(doc["bucket"]["name"].as_str(), Some("my-real-bucket"));
    assert_eq!(doc["export"]["layout"].as_str(), Some("flat"));
    assert_eq!(doc["library"]["root"].as_str(), Some("/Volumes/T7/music/library"));
}

#[test]
fn set_library_root_overwrites_a_previously_declared_root() {
    let first = set_library_root(&None, "config.toml", "/Volumes/T7/music/library").unwrap();
    let text = set_library_root(&Some(first), "config.toml", "/Volumes/T72/choons").unwrap();
    let doc = text.parse::<toml_edit::DocumentMut>().unwrap();
    assert_eq!(doc["library"]["root"].as_str(), Some("/Volumes/T72/choons"));
    assert!(!text.contains("T7/music"));
}

#[test]
fn other_settings_of_the_library_are_kept() {
    let before = "library.note = \"x\"\nlibrary.root = \"/old\"\n[bucket]\nname = \"b\"\n";
    let text = set_library_root(&Some(before.to_string()), "c", "/new 'q\" é\n").unwrap();
    let doc = text.parse::<toml_edit::DocumentMut>().unwrap();
    assert_eq!(doc["library"]["note"].as_str(), Some("x"));
    assert_eq!(doc["library"]["root"].as_str(), Some("/new 'q\" é\n"));
    let e = set_library_root(&Some("[broken".to_string()), "c.toml", "/x").unwrap_err();
    assert!(e.message().starts_with("configuration error: could not parse c.toml: "));
}

/// The comments of a configuration whose strings hold no `#`.
fn comments(text: &str) -> Vec<String> {
    let mut found: Vec<String> = text
        .lines()
        .filter_map(|l| l.find('#').map(|i| l[i..].to_string()))
        .collect();
    found.sort();
    found
}

/// Declares a root in a configuration and holds the result against what was there.
fn declare_in(before: &str) -> String {
    let after = set_library_root(&Some(before.to_string()), "c", "/new").unwrap();
    let mut expected = before.parse::<toml::Table>().unwrap();
    let root = toml::Value::String("/new".to_string());
    match expected.get_mut("library").and_then(|v| v.as_table_mut()) {
        Some(library) => {
            library.insert("root".to_string(), root);
        }
        None => {
            let mut library = toml::Table::new();
            library.insert("root".to_string(), root);
            expected.insert("library".to_string(), toml::Value::Table(library));
        }
    }
    assert_eq!(after.parse::<toml::Table>().unwrap(), expected, "{after}");
    after
}

#[test]
fn declaring_a_root_leaves_everything_else() {
    let documents = [
        "",
        "# only a comment",
        "# top\r\n[import]\r\ninclude_dotfiles = true # switch\r\n# end\r\n",
        "[bucket] # head\nname = \"b\"\n\n[mixxx]\nrelative_paths = false\n# trailing\n",
        "[profiles.a]\nn = 3 # three\n[profiles.b]\nlist = [ # one\n  1, # two\n  2,\n]\n",
        "# c1\n[library] # c2\n# c3\nroot = \"/old\" # c4\nother = 1979-05-27 # c5\n[z]\n# c6\n",
        "# c1\nlibrary = { note = \"x\", deep = { a = 1 } } # c2\n[z] # c3\n",
        "# c1\nlibrary = { root = \"/old\" } # c2\n",
        "library = {}\n",
        "library = { }\n",
        "# c1\nlibrary = 5 # c2\nx = 1\n[z]\n",
        "# c1\nlibrary = [1, 2] # c2\n",
        "a.b = 1 # c1\nc = 2 # c2\na.d = 3 # c3\nlibrary.note = true # c4\n[a.e]\nf = 1 # c5\n",
        "# c1\nlibrary.root = \"/old\" # c2\n[library.sub]\nx = 1 # c3\n",
        "[library.sub] # c1\nx = 1\n[bucket]\n# c2\nname = \"b\"\n[library.sub.more]\n",
        "[bucket]\n[library.sub] # c1\n[bucket.x] # c2\ny = 1\n",
        "[[library.items]] # c1\nn = 1\n[[list]] # c2\n[[library.items]]\nn = 2\n[list.below]\n",
        "[[a]] # c1\nx = 1\n[y] # c2\n[[a]] # c3\nx = 2\n[a.b] # c4\n",
        "[a.b.c] # c1\n[d]\n# c2\n[a]\nz = 1\n[\"li\\u0062rary\"] # c3\n'other' = 1\n",
        "library = \"old\"\n[[list]]\nroot = 1\n",
    ];
    for before in documents {
        let after = declare_in(before);
        assert_eq!(comments(&after), comments(before), "{after}");
    }
}

#[test]
fn what_a_root_replaces_goes_with_its_comments() {
    let after = declare_in("# c1\n[bucket]\nx = 1\n[[library]]\n# c2\nroot = 1\n[z]\n");
    assert_eq!(comments(&after), ["# c1"]);
    let after = declare_in("[ library.root ]\n# c1\nx = 1\n[z] # c2\n");
    assert_eq!(comments(&after), ["# c2"]);
    let after = declare_in("[library]\nroot.x = 1 # c1\nother = 1 # c2\n");
    assert_eq!(comments(&after), ["# c2"]);
    let after = declare_in("library = { root.x = 1, root.y = 2, z = 3 } # c1\n");
    assert_eq!(comments(&after), ["# c1"]);
    let after = declare_in("# c0\nroot = 1\n[library]\nroot = [ # c1\n 1 ] # c2\n");
    assert_eq!(comments(&after), ["# c0", "# c2"]);
}

#[test]
fn the_local_default_is_used_until_there_is_a_file() {
    let c = load_config(Err(Error::config("no file")));
    assert_eq!(c.bucket.name, "local");
    assert_eq!(c.bucket.prefix, ".trove");
    assert_eq!(c.bucket.music_prefix, "music");
    assert_eq!(c.export.layout, ExportLayout::ArtistAlbum);
    assert_eq!(c.library.root, None);
    assert_eq!(c, Config::local_default());
    let mut other = Config::local_default();
    assert_eq!(store_kind(&other.bucket), StoreKind::Local);
    other.bucket.region = "us-east-1".to_string();
    assert_eq!(store_kind(&other.bucket), StoreKind::Remote { own_endpoint: false });
    other.bucket.endpoint = Some("https://s3.example.com".to_string());
    assert_eq!(store_kind(&other.bucket), StoreKind::Remote { own_endpoint: true });
    other.bucket.name = "mine".to_string();
    assert_eq!(load_config(Ok(other)).bucket.name, "mine");
}

#[test]
fn homes_and_folders_are_resolved() {
    let s = |x: &str| Some(x.to_string());
    assert_eq!(trove_home(&s("/x"), &s("/home/u")), Ok("/x".to_string()));
    assert_eq!(trove_home(&None, &s("/home/u")), Ok("/home/u/.trove".to_string()));
    assert_eq!(
        trove_home(&None, &None),
        Err(Error::config("could not determine home directory"))
    );
    assert_eq!(default_config_path("/h"), "/h/config.toml");
    assert_eq!(bucket_dir(&None, "/h"), "/h/bucket-sim");
    assert_eq!(bucket_dir(&s("/b"), "/h"), "/b");
    let config = ImportConfig { include_dotfiles: false, capture_artwork: true };
    let o = merge_import_options(&config, true, true, vec!["/c.jpg".to_string()]);
    assert!(o.include_dotfiles && !o.capture_artwork);
    assert_eq!(o.artwork_paths.len(), 1);
}

// --- Moments, ids, hashes and errors ---------------------------------------

#[test]
fn moments_are_written_and_read() {
    let t = Timestamp { secs: 1_767_225_600, nanos: 500_000_000 };
    let s = format_ts(t).unwrap();
    assert_eq!(s, "2026-01-01T00:00:00.500+00:00");
    assert_eq!(parse_ts(&s), Ok(t));
    assert_eq!(parse_dt("2026-01-01T02:00:00+02:00", t), now());
    assert_eq!(parse_dt("garbage", t), t);
    assert_eq!(parse_opt(&Some(s)), Some(t));
    assert_eq!(parse_opt(&Some("garbage".to_string())), None);
    assert_eq!(parse_opt(&None), None);
    assert!(matches!(parse_ts("garbage"), Err(Error::Other(_))));
    assert_eq!(format_ts(Timestamp { secs: i64::MAX, nanos: 0 }), None);
}

#[test]
fn ids_are_fresh_and_clocks_go() {
    assert_ne!(TrackId::new(), TrackId::new());
    assert_ne!(Playlist::new("a").id, Playlist::new("a").id);
    assert!(Timestamp::now().secs > 1_600_000_000);
    assert_eq!(TrackId::from("x").0, "x");
}

#[test]
fn content_is_hashed() {
    assert_eq!(
        hash_bytes(b"abc"),
        "ba7816bf8f01cfea414140de5dae2223b00361a396177a9cb410ff61f20015ad"
    );
}

#[test]
fn errors_say_where_they_come_from() {
    let s = || "x".to_string();
    assert_eq!(Error::Config(s()).message(), "configuration error: x");
    assert_eq!(Error::Io(s()).message(), "i/o error: x");
    assert_eq!(Error::Db(s()).message(), "database error: x");
    assert_eq!(Error::Serde(s()).message(), "serialization error: x");
    assert_eq!(Error::Toml(s()).message(), "toml parse error: x");
    assert_eq!(Error::Reconcile(s()).message(), "reconcile error: x");
    assert_eq!(Error::Store(s()).message(), "object store error: x");
    assert_eq!(Error::NotFound(s()).message(), "not found: x");
    assert_eq!(Error::NotImplemented(s()).message(), "not implemented: x");
    assert_eq!(Error::Other(s()).message(), "x");
}

#[test]
fn a_file_name_says_title_and_type() {
    let m = StubExtractor.extract("/m/01 Intro.FLAC").unwrap();
    assert_eq!(m.title.as_deref(), Some("01 Intro"));
    assert_eq!(m.file_type.as_deref(), Some("flac"));
    assert_eq!(m.artist, None);
    let m = StubExtractor.extract("/m/noext").unwrap();
    assert_eq!(m.file_type, None);
    let m = StubExtractor.extract("/").unwrap();
    assert_eq!(m.title, None);
}

// --- Texts, paths and maps -------------------------------------------------

#[test]
fn paths_are_taken_apart_like_std_paths() {
    for p in
        ["/a/b.mp3", "a/b/", "/", "", ".hidden", "a/..", "a//b", "x.tar.gz", "/a/./b", "..", "a."]
    {
        let std = std::path::Path::new(p);
        assert_eq!(
            file_name_of(p).as_deref(),
            std.file_name().and_then(|s| s.to_str()),
            "file name of {p:?}"
        );
        assert_eq!(
            extension_of(p).as_deref(),
            std.extension().and_then(|s| s.to_str()),
            "extension of {p:?}"
        );
        assert_eq!(
            file_stem_of(p).as_deref(),
            std.file_stem().and_then(|s| s.to_str()),
            "stem of {p:?}"
        );
        assert_eq!(
            parent_of(p),
            std.parent().map(|q| q.to_str().unwrap().to_string()),
            "parent of {p:?}"
        );
        assert_eq!(components(p).len(), std.components().count(), "components of {p:?}");
        for q in ["c", "/c", ""] {
            assert_eq!(join_path(p, q), std.join(q).to_str().unwrap());
        }
        assert_eq!(strip_prefix("/a", p).is_some(), std.strip_prefix("/a").is_ok());
    }
}

#[test]
fn paths_sort_like_std_paths() {
    let names = vec!["/a b/x", "/a/x", "/a/b/c", "/a-b", "/a", "b"];
    let mut expected: Vec<std::path::PathBuf> =
        names.iter().map(std::path::PathBuf::from).collect();
    expected.sort();
    let sorted = sort_paths(&names.iter().map(|s| s.to_string()).collect());
    let expected: Vec<String> =
        expected.iter().map(|p| p.to_str().unwrap().to_string()).collect();
    assert_eq!(sorted, expected);
}

#[test]
fn texts_sort_stably() {
    let texts: Vec<String> = ["b", "a", "b", "", "ab"].iter().map(|s| s.to_string()).collect();
    assert_eq!(order_texts(&texts), vec![3, 1, 4, 0, 2]);
    assert!(text_le("a", "b") && !text_le("b", "a") && text_le("a", "a"));
}

#[test]
fn texts_are_split_trimmed_and_counted() {
    assert_eq!(split_text("a//b", '/'), vec!["a", "", "b"]);
    assert_eq!(trim(" \u{2003}a b\t\n"), "a b");
    assert_eq!(decimal_text(0), "0");
    assert_eq!(decimal_text(u64::MAX), "18446744073709551615");
    assert_eq!(padded_decimal_text(7, 3), "007");
}

#[test]
fn maps_hold_the_last_value() {
    let mut m: TextMap<u8> = TextMap::new();
    m.insert("b", 1);
    m.insert("a", 2);
    m.insert("b", 3);
    assert_eq!(m.get("b"), Some(&3));
    assert_eq!(m.get("c"), None);
    assert!(m.contains_key("a"));
    assert_eq!(m.remove("a"), Some(2));
    assert_eq!(m.remove("a"), None);
}
