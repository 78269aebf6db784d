//! A store together with the record of what it was asked and what it replied.

use vstd::prelude::*;

use crate::error::Error;
use crate::store::api::{ObjectMeta, ObjectStore};

verus! {

/// One request to a store, with the reply.
pub enum Exchange {
    Get(Seq<char>, Result<Vec<u8>, Error>),
    Head(Seq<char>, Result<Option<ObjectMeta>, Error>),
    Exists(Seq<char>, Result<bool, Error>),
    Copy(Seq<char>, Seq<char>, Result<ObjectMeta, Error>),
}

/// A store whose replies are on record. The record costs nothing at run time: it is
/// what contracts speak of where only the store knows the answer.
pub struct LoggedStore<S> {
    store: S,
    history: Ghost<Seq<Exchange>>,
}

impl<S: ObjectStore> LoggedStore<S> {
    /// Every request made so far, with its reply.
    pub closed spec fn history(&self) -> Seq<Exchange> {
        self.history@
    }

    /// A store of which nothing has been asked.
    pub fn new(store: S) -> (r: LoggedStore<S>)
        ensures
            r.history() == Seq::<Exchange>::empty(),
    {
        LoggedStore { store, history: Ghost(Seq::empty()) }
    }

    /// Fetches an object's bytes.
    pub fn get(&mut self, key: &str) -> (r: Result<Vec<u8>, Error>)
        ensures
            final(self).history() == old(self).history().push(Exchange::Get(key@, r)),
    {
        let r = self.store.get(key);
        self.history = Ghost(self.history@.push(Exchange::Get(key@, r)));
        r
    }

    /// An object's metadata, without its bytes.
    pub fn head(&mut self, key: &str) -> (r: Result<Option<ObjectMeta>, Error>)
        ensures
            final(self).history() == old(self).history().push(Exchange::Head(key@, r)),
    {
        let r = self.store.head(key);
        self.history = Ghost(self.history@.push(Exchange::Head(key@, r)));
        r
    }

    /// Whether an object exists.
    pub fn object_exists(&mut self, key: &str) -> (r: Result<bool, Error>)
        ensures
            final(self).history() == old(self).history().push(Exchange::Exists(key@, r)),
    {
        let r = self.store.object_exists(key);
        self.history = Ghost(self.history@.push(Exchange::Exists(key@, r)));
        r
    }

    /// Copies an object within the store.
    pub fn copy(&mut self, from_key: &str, to_key: &str) -> (r: Result<ObjectMeta, Error>)
        ensures
            final(self).history() == old(self).history().push(
                Exchange::Copy(from_key@, to_key@, r),
            ),
    {
        let r = self.store.copy(from_key, to_key);
        self.history = Ghost(self.history@.push(Exchange::Copy(from_key@, to_key@, r)));
        r
    }
}

} // verus!
