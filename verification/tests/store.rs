//! Object stores: the one in memory, the one on disk and the one in the cloud.

use trove_core::hash::hash_bytes;
use trove_core::store::api::etag_matches;
use trove_core::store::fs::{key_for, list_keys, FsStore};
use trove_core::store::s3::{
    copy_source, encode_key, is_multipart, next_page, part_number, probe_verdict, refused_write,
    stated_size, strip_quotes, upload_next, write_condition, Condition, UploadEvent, UploadState,
};
use trove_core::store::stub::{copy_bytes, StubStore};
use trove_core::store::{ObjectMeta, ObjectStore, PutOutcome};
use trove_core::Error;

#[test]
fn encode_key_preserves_paths_and_escapes_specials() {
    assert_eq!(encode_key("music/track.mp3"), "music/track.mp3");
    assert_eq!(
        encode_key("music/17 - Sigh. [Explicit].mp3"),
        "music/17%20-%20Sigh.%20%5BExplicit%5D.mp3"
    );
}

#[test]
fn strip_quotes_unwraps_etag() {
    assert_eq!(strip_quotes("\"abc123\""), "abc123");
    assert_eq!(strip_quotes("abc123"), "abc123");
}

#[test]
fn encoded_keys_differ_and_are_bytewise() {
    assert_eq!(encode_key("é%"), "%C3%A9%25");
    assert_ne!(encode_key("a b"), encode_key("a%20b"));
    assert_eq!(copy_source("bucket", "a b"), "bucket/a%20b");
}

#[test]
fn the_stub_store_gives_back_what_was_put() {
    let mut s = StubStore::new();
    assert_eq!(s.get("k"), Err(Error::not_found("object k")));
    assert_eq!(s.object_exists("k"), Ok(false));
    assert_eq!(s.head("k"), Ok(None));
    let meta = s.put("k", b"one").unwrap();
    assert_eq!(meta.size_bytes, 3);
    assert_eq!(meta.etag, Some(hash_bytes(b"one")));
    assert_eq!(s.get("k").unwrap(), b"one");
    s.put("k", b"two!").unwrap();
    assert_eq!(s.get("k").unwrap(), b"two!");
    s.copy("k", "j").unwrap();
    assert_eq!(s.get("j").unwrap(), b"two!");
    assert_eq!(s.object_exists("j"), Ok(true));
    s.put("other", b"").unwrap();
    assert_eq!(s.list("").unwrap(), vec!["j", "k", "other"]);
    assert_eq!(s.list("k").unwrap(), vec!["k"]);
    assert!(matches!(s.copy("gone", "x"), Err(Error::NotFound(_))));
    assert_eq!(copy_bytes(b"abc"), b"abc");
}

#[test]
fn conditional_writes_go_by_the_etag() {
    let mut s = StubStore::new();
    let first = match s.put_if_match("k", None, b"1").unwrap() {
        PutOutcome::Written(m) => m,
        PutOutcome::Conflict { .. } => panic!("nothing was there"),
    };
    assert_eq!(
        s.put_if_match("k", None, b"2").unwrap(),
        PutOutcome::Conflict { current_etag: first.etag.clone() }
    );
    assert_eq!(
        s.put_if_match("k", Some("stale"), b"2").unwrap(),
        PutOutcome::Conflict { current_etag: first.etag.clone() }
    );
    assert!(matches!(
        s.put_if_match("k", first.etag.as_deref(), b"2").unwrap(),
        PutOutcome::Written(_)
    ));
    assert_eq!(s.get("k").unwrap(), b"2");
    assert!(etag_matches(None, &None));
    assert!(!etag_matches(Some("a"), &None));
}

#[test]
fn keys_map_to_paths_below_the_root() {
    let s = FsStore::new("/bucket");
    assert_eq!(s.root(), "/bucket");
    assert_eq!(s.path_for("a/b.mp3"), "/bucket/a/b.mp3");
    assert_eq!(key_for("a/b.mp3"), "a/b.mp3");
    let keys = vec!["b".to_string(), "a/2".to_string(), "a/1".to_string()];
    assert_eq!(list_keys(&keys, "a/"), vec!["a/1", "a/2"]);
    assert_eq!(FsStore::surrogate_etag(12, 340), "12-340");
    assert_eq!(FsStore::temp_name("/b/k.mp3", 7), ".k.mp3.tmp-7");
}

#[test]
fn a_multipart_upload_sends_every_byte_once() {
    let len: usize = 70 * 1024 * 1024;
    assert!(is_multipart(len));
    assert!(!is_multipart(10));
    let mut covered = 0;
    let mut numbers = Vec::new();
    let mut state = upload_next(len, UploadState::Create, UploadEvent::Succeeded);
    loop {
        match state {
            UploadState::Part { sent, start, end } => {
                assert_eq!(start, covered);
                assert!(end > start && end <= len);
                covered = end;
                numbers.push(part_number(sent));
                state = upload_next(
                    len,
                    UploadState::Part { sent, start, end },
                    UploadEvent::Succeeded,
                );
            }
            UploadState::Complete { sent } => {
                assert_eq!(sent, numbers.len());
                state = upload_next(len, UploadState::Complete { sent }, UploadEvent::Succeeded);
            }
            UploadState::Done => break,
            _ => panic!("an upload without failures ends"),
        }
    }
    assert_eq!(covered, len);
    assert_eq!(numbers[0], 1);
}

#[test]
fn a_failed_part_aborts_the_upload() {
    let len: usize = 70 * 1024 * 1024;
    let state = upload_next(len, UploadState::Create, UploadEvent::Succeeded);
    let state = upload_next(len, state, UploadEvent::Failed(Error::store("lost")));
    assert_eq!(state, UploadState::Abort { error: Error::store("lost") });
    let state = upload_next(len, state, UploadEvent::Succeeded);
    assert_eq!(state, UploadState::Failed { error: Error::store("lost") });
    let state = UploadState::Complete { sent: 2 };
    let state = upload_next(len, state, UploadEvent::Failed(Error::store("late")));
    assert_eq!(state, UploadState::Abort { error: Error::store("late") });
    let state = upload_next(len, state, UploadEvent::Failed(Error::store("again")));
    assert_eq!(state, UploadState::Failed { error: Error::store("late") });
}

#[test]
fn conditions_become_headers() {
    assert_eq!(write_condition("k", None, 1), Ok(Condition::IfNoneMatchAny));
    assert_eq!(
        write_condition("k", Some("abc"), 1),
        Ok(Condition::IfMatch("abc".to_string()))
    );
    assert!(write_condition("k", None, 1 << 30).is_err());
}

#[test]
fn a_refused_write_is_a_conflict_only_for_a_failed_condition() {
    assert_eq!(
        refused_write("k", Some("PreconditionFailed"), "x"),
        Ok(PutOutcome::Conflict { current_etag: None })
    );
    assert!(refused_write("k", Some("AccessDenied"), "x").is_err());
    assert!(refused_write("k", None, "x").is_err());
}

#[test]
fn a_probe_finds_out_whether_conditions_are_honoured() {
    let written = PutOutcome::Written(ObjectMeta {
        key: "k".to_string(),
        size_bytes: 1,
        etag: Some("e".to_string()),
    });
    let conflict = PutOutcome::Conflict { current_etag: None };
    assert_eq!(probe_verdict(&written, Ok(conflict)), Ok(()));
    let again = PutOutcome::Written(ObjectMeta {
        key: "k".to_string(),
        size_bytes: 1,
        etag: None,
    });
    assert!(probe_verdict(&written, Ok(again)).is_err());
    assert!(probe_verdict(&written, Err(Error::store("down"))).is_err());
}

#[test]
fn listings_go_on_while_they_are_truncated() {
    assert_eq!(next_page(Some(true), Some("t".to_string())).as_deref(), Some("t"));
    assert_eq!(next_page(Some(false), Some("t".to_string())), None);
    assert_eq!(next_page(None, None), None);
    assert_eq!(stated_size(Some(12)), 12);
    assert_eq!(stated_size(None), 0);
    assert_eq!(stated_size(Some(-1)), 0);
}
