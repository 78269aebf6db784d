//! The canonical index in the bucket, and how the local cache keeps up with
//! it.
//!
//! The bucket holds one immutable index object for each generation, and a
//! small marker that names the current generation. The marker is the only
//! object that is ever overwritten, and only by a conditional write.

pub mod index;
pub mod push;
pub mod reconcile;
pub mod verify;

pub use index::{
    BucketPaths, ARCHIVE_INDEX_SQLITE, CURRENT_SCHEMA_VERSION, SCHEMA_VERSION_JSON,
};
pub use reconcile::{reconcile, ReconcileReport};
pub use verify::{verify_archive, ArchiveVerifyReport};
