//! The local databases: what their rows mean, and how queries are put to them.
//!
//! None of them is authoritative; a wiped one rebuilds itself.

pub mod archive;
pub mod import;
pub mod transfer;
pub mod volume;
