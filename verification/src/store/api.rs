//! What the rest of the library asks of an object store.

use vstd::prelude::*;

use crate::error::Error;
use crate::text;

verus! {

/// Metadata of a stored object.
#[derive(Debug, Clone, PartialEq, Eq)]
pub struct ObjectMeta {
    pub key: String,
    pub size_bytes: u64,
    /// Opaque: it tells two states of an object apart, nothing more.
    pub etag: Option<String>,
}

impl ObjectMeta {
    /// The same metadata again.
    pub fn copy(&self) -> (r: ObjectMeta)
        ensures
            r == *self,
    {
        ObjectMeta {
            key: self.key.clone(),
            size_bytes: self.size_bytes,
            etag: text::copy_opt(&self.etag),
        }
    }
}

/// The outcome of a conditional write.
#[derive(Debug, Clone, PartialEq, Eq)]
pub enum PutOutcome {
    /// The write succeeded.
    Written(ObjectMeta),
    /// The object was not in the state that the write was made for.
    /// `current_etag` is for diagnosis only: a retry reads the state anew.
    Conflict { current_etag: Option<String> },
}

/// The text of an optional string slice.
pub open spec fn opt_str(s: Option<&str>) -> Option<Seq<char>> {
    match s {
        Some(t) => Some(t@),
        None => None,
    }
}

/// A durable object store.
///
/// Other writers may change a store between any two requests, so nothing is
/// promised of a reply.
pub trait ObjectStore {
    /// Fetches an object's bytes.
    fn get(&mut self, key: &str) -> Result<Vec<u8>, Error>;

    /// Stores bytes at a key.
    fn put(&mut self, key: &str, bytes: &[u8]) -> Result<ObjectMeta, Error>;

    /// Whether an object exists.
    fn object_exists(&mut self, key: &str) -> Result<bool, Error>;

    /// An object's metadata, without its bytes.
    fn head(&mut self, key: &str) -> Result<Option<ObjectMeta>, Error>;

    /// Copies an object within the store.
    fn copy(&mut self, from_key: &str, to_key: &str) -> Result<ObjectMeta, Error>;

    /// The keys under a prefix.
    fn list(&mut self, prefix: &str) -> Result<Vec<String>, Error>;

    /// Writes bytes only if the object's etag is the expected one. With no
    /// expected etag, writes only if there is no object yet.
    fn put_if_match(
        &mut self,
        key: &str,
        expected_etag: Option<&str>,
        bytes: &[u8],
    ) -> Result<PutOutcome, Error>;
}

/// Whether a conditional write may go ahead: the object has the expected etag,
/// or there is neither an expected etag nor an object.
pub open spec fn condition_holds(
    expected: Option<Seq<char>>,
    current: Option<Seq<char>>,
) -> bool {
    expected == current
}

/// Whether a conditional write may go ahead.
pub fn etag_matches(expected: Option<&str>, current: &Option<String>) -> (r: bool)
    ensures
        r == condition_holds(opt_str(expected), text::opt_view(*current)),
{
    match (expected, current) {
        (None, None) => true,
        (Some(e), Some(c)) => text::same(e, c.as_str()),
        _ => false,
    }
}

} // verus!
