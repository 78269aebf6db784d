//! The one error type of the library.

use vstd::prelude::*;

use crate::text;

verus! {

/// Why an operation failed.
#[derive(Debug, Clone, PartialEq, Eq)]
pub enum Error {
    Config(String),
    Io(String),
    Db(String),
    Serde(String),
    Toml(String),
    /// The local cache is missing or stale and could not be reconciled with
    /// the bucket, and no offline fallback was permitted.
    Reconcile(String),
    /// An object store operation failed.
    Store(String),
    /// A requested entity was not found.
    NotFound(String),
    /// The operation is recognized but not wired up.
    NotImplemented(String),
    Other(String),
}

impl Error {
    /// What is wrong, without its kind.
    pub open spec fn detail(self) -> Seq<char> {
        match self {
            Error::Config(m) => m@,
            Error::Io(m) => m@,
            Error::Db(m) => m@,
            Error::Serde(m) => m@,
            Error::Toml(m) => m@,
            Error::Reconcile(m) => m@,
            Error::Store(m) => m@,
            Error::NotFound(m) => m@,
            Error::NotImplemented(m) => m@,
            Error::Other(m) => m@,
        }
    }

    /// The words in front of the detail that tell the kind of the error.
    pub open spec fn heading(self) -> Seq<char> {
        match self {
            Error::Config(_) => "configuration error: "@,
            Error::Io(_) => "i/o error: "@,
            Error::Db(_) => "database error: "@,
            Error::Serde(_) => "serialization error: "@,
            Error::Toml(_) => "toml parse error: "@,
            Error::Reconcile(_) => "reconcile error: "@,
            Error::Store(_) => "object store error: "@,
            Error::NotFound(_) => "not found: "@,
            Error::NotImplemented(_) => "not implemented: "@,
            Error::Other(_) => Seq::empty(),
        }
    }

    /// The error as shown to a reader.
    pub open spec fn shown(self) -> Seq<char> {
        self.heading() + self.detail()
    }

    pub fn config(msg: &str) -> (e: Error)
        ensures
            e matches Error::Config(m) && m@ == msg@,
    {
        Error::Config(msg.to_owned())
    }

    pub fn store(msg: &str) -> (e: Error)
        ensures
            e matches Error::Store(m) && m@ == msg@,
    {
        Error::Store(msg.to_owned())
    }

    pub fn not_found(msg: &str) -> (e: Error)
        ensures
            e matches Error::NotFound(m) && m@ == msg@,
    {
        Error::NotFound(msg.to_owned())
    }

    /// The error as shown to a reader.
    pub fn message(&self) -> (r: String)
        ensures
            r@ == self.shown(),
    {
        match self {
            Error::Config(m) => text::cat2("configuration error: ", m.as_str()),
            Error::Io(m) => text::cat2("i/o error: ", m.as_str()),
            Error::Db(m) => text::cat2("database error: ", m.as_str()),
            Error::Serde(m) => text::cat2("serialization error: ", m.as_str()),
            Error::Toml(m) => text::cat2("toml parse error: ", m.as_str()),
            Error::Reconcile(m) => text::cat2("reconcile error: ", m.as_str()),
            Error::Store(m) => text::cat2("object store error: ", m.as_str()),
            Error::NotFound(m) => text::cat2("not found: ", m.as_str()),
            Error::NotImplemented(m) => text::cat2("not implemented: ", m.as_str()),
            Error::Other(m) => {
                proof {
                    assert(Seq::<char>::empty() + m@ =~= m@);
                }
                m.clone()
            },
        }
    }
}

/// An error is shown with the words for its kind in front of what is wrong; one of no
/// kind is shown as it is.
pub proof fn law_error_is_shown_with_its_kind(e: Error)
    ensures
        match e {
            Error::Config(m) => e.shown() == "configuration error: "@ + m@,
            Error::Io(m) => e.shown() == "i/o error: "@ + m@,
            Error::Db(m) => e.shown() == "database error: "@ + m@,
            Error::Serde(m) => e.shown() == "serialization error: "@ + m@,
            Error::Toml(m) => e.shown() == "toml parse error: "@ + m@,
            Error::Reconcile(m) => e.shown() == "reconcile error: "@ + m@,
            Error::Store(m) => e.shown() == "object store error: "@ + m@,
            Error::NotFound(m) => e.shown() == "not found: "@ + m@,
            Error::NotImplemented(m) => e.shown() == "not implemented: "@ + m@,
            Error::Other(m) => e.shown() == m@,
        },
{
    if let Error::Other(m) = e {
        assert(Seq::<char>::empty() + m@ =~= m@);
    }
}

} // verus!
