//! The object store (the bucket).

pub mod api;
pub mod fs;
pub mod logged;
pub mod s3;
pub mod stub;

pub use api::{ObjectMeta, ObjectStore, PutOutcome};
pub use logged::LoggedStore;
