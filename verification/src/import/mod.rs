//! Bulk import: a resumable, crash-safe migration of a local library into the
//! bucket.
//!
//! A job goes through scan, fingerprint, dedupe, upload, verify and commit.
//! Every file carries an explicit state, and the canonical index only advances
//! after verify and commit.

pub mod artwork;
pub mod commit;
pub mod job;
pub mod manifest;
pub mod phase;
pub mod plan;
pub mod progress;
pub mod retry;
pub mod scan;
pub mod state;
pub mod upload;
pub mod verify;

pub use job::{
    canonical_music_relative, prepare_for_resume, ArtworkCandidate, DuplicateReason, ImportJob,
    ImportOptions, ImportStats, PlannedFile,
};
pub use manifest::{ImportManifest, ImportManifestFile};
pub use progress::{
    ImportProgress, ImportProgressEvent, ImportProgressKind, NoopImportProgress,
};
pub use scan::{DEFAULT_AUDIO_EXTENSIONS, DEFAULT_IMAGE_EXTENSIONS};
pub use state::{FileState, Phase};
