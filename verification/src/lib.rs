//! The core of Trove: a verified library for a content-addressed music archive.
//!
//! The bucket is the only durable source of truth; every cache on a machine can
//! be rebuilt from it. This library holds the rules by which machines keep the
//! bucket and their caches in order: imports, the canonical index, the library
//! root and its backfill plans, playlists, and performance volumes.

pub mod archive;
pub mod collections;
pub mod config;
pub mod db;
pub mod error;
pub mod facade;
pub mod hash;
pub mod import;
pub mod library;
pub mod metadata;
pub mod model;
pub mod path;
pub mod playlist;
pub mod query;
pub mod report;
pub mod selection;
pub mod sort;
pub mod store;
pub mod sync;
pub mod text;
pub mod time;
pub mod volume;

pub use config::Config;
pub use db::import::{ImportJobSummary, ImportStatusReport};
pub use error::Error;
pub use import::ImportOptions;
pub use import::{ImportProgress, ImportProgressEvent, ImportProgressKind, NoopImportProgress};
pub use model::{ArchiveEntry, Metadata, Playlist, TrackId};
pub use query::QuerySpec;
