//! The index of a performance volume.

use vstd::prelude::*;

use crate::error::Error;
use crate::model::{Timestamp, TrackId};
use crate::selection;
use crate::text;
use crate::time;

verus! {

/// The state of a file on a volume.
#[derive(Debug, Clone, Copy, PartialEq, Eq, Structural)]
pub enum VolumeFileStatus {
    Copied,
    Pending,
    Stale,
    Failed,
}

impl VolumeFileStatus {
    /// The name under which it is stored.
    pub open spec fn name(self) -> Seq<char> {
        match self {
            VolumeFileStatus::Copied => "copied"@,
            VolumeFileStatus::Pending => "pending"@,
            VolumeFileStatus::Stale => "stale"@,
            VolumeFileStatus::Failed => "failed"@,
        }
    }

    /// The value with the given name, if there is one.
    pub fn parse(s: &str) -> (r: Option<VolumeFileStatus>)
        ensures
            r matches Some(v) ==> v.name() == s@,
            r is None ==> forall|v: VolumeFileStatus| #[trigger] v.name() != s@,
    {
        if text::same(s, "copied") {
            Some(VolumeFileStatus::Copied)
        } else if text::same(s, "pending") {
            Some(VolumeFileStatus::Pending)
        } else if text::same(s, "stale") {
            Some(VolumeFileStatus::Stale)
        } else if text::same(s, "failed") {
            Some(VolumeFileStatus::Failed)
        } else {
            None
        }
    }

    /// The name under which it is stored.
    pub fn as_str(&self) -> (r: &'static str)
        ensures
            r@ == self.name(),
    {
        match self {
            VolumeFileStatus::Copied => "copied",
            VolumeFileStatus::Pending => "pending",
            VolumeFileStatus::Stale => "stale",
            VolumeFileStatus::Failed => "failed",
        }
    }
}

/// The names under which the states of files on a volume are stored.
pub proof fn law_volume_status_names(s: VolumeFileStatus)
    ensures
        s is Copied ==> s.name() == "copied"@,
        s is Pending ==> s.name() == "pending"@,
        s is Stale ==> s.name() == "stale"@,
        s is Failed ==> s.name() == "failed"@,
{
}

/// No two states have the same name, so a stored state is read back as itself.
pub proof fn law_volume_status_names_distinct(a: VolumeFileStatus, b: VolumeFileStatus)
    requires
        a.name() == b.name(),
    ensures
        a == b,
{
    reveal_strlit("copied");
    reveal_strlit("pending");
    reveal_strlit("stale");
    reveal_strlit("failed");
    let x = a.name();
    let y = b.name();
    assert(x.len() == y.len());
    assert(x[0] == y[0]);
}

/// One file of a volume.
#[derive(Debug, Clone, PartialEq, Eq)]
pub struct VolumeFile {
    pub track_id: TrackId,
    pub relative_path: String,
    pub size_bytes: Option<u64>,
    pub sha256: Option<String>,
    pub status: VolumeFileStatus,
    pub last_seen_at: Option<Timestamp>,
}

/// How many files of a volume are in which state.
#[derive(Debug, Clone, Copy, PartialEq, Eq, Structural)]
pub struct VolumeFileStats {
    pub copied: usize,
    pub pending: usize,
    pub stale: usize,
    pub failed: usize,
    pub total: usize,
}

impl Default for VolumeFileStats {
    fn default() -> (r: VolumeFileStats)
        ensures
            r == (VolumeFileStats { copied: 0, pending: 0, stale: 0, failed: 0, total: 0 }),
    {
        VolumeFileStats { copied: 0, pending: 0, stale: 0, failed: 0, total: 0 }
    }
}

/// A row of the table of files, as the database holds it.
#[derive(Debug, Clone, PartialEq, Eq)]
pub struct VolumeFileRow {
    pub track_id: String,
    pub relative_path: String,
    pub size_bytes: Option<i64>,
    pub sha256: Option<String>,
    pub status: String,
    pub last_seen_at: Option<String>,
}

/// Reads a row. Fails exactly on a status that there is none of.
pub fn row_to_volume_file(row: VolumeFileRow) -> (r: Result<VolumeFile, Error>)
    ensures
        match r {
            Ok(f) => {
                &&& f.track_id.0 == row.track_id
                &&& f.relative_path == row.relative_path
                &&& f.size_bytes == match row.size_bytes {
                    Some(n) => Some(n as u64),
                    None => None,
                }
                &&& f.sha256 == row.sha256
                &&& f.status.name() == row.status@
                &&& match row.last_seen_at {
                    Some(t) => match time::rfc3339_reading(t@) {
                        Ok(m) => f.last_seen_at matches Some(v) && (v.secs, v.nanos) == m,
                        Err(_) => f.last_seen_at is None,
                    },
                    None => f.last_seen_at is None,
                }
            },
            Err(e) => {
                &&& forall|s: VolumeFileStatus| #[trigger] s.name() != row.status@
                &&& e matches Error::Db(m) && m@ == "Invalid column type Text at index: 4, name: "@
                    + row.status@
            },
        },
{
    match VolumeFileStatus::parse(row.status.as_str()) {
        Some(status) => Ok(
            VolumeFile {
                track_id: TrackId(row.track_id),
                relative_path: row.relative_path,
                size_bytes: match row.size_bytes {
                    Some(n) => Some(n as u64),
                    None => None,
                },
                sha256: row.sha256,
                status,
                last_seen_at: time::parse_opt(&row.last_seen_at),
            },
        ),
        None => Err(Error::Db(text::cat2(
                    "Invalid column type Text at index: 4, name: ",
                    row.status.as_str(),
                ))),
    }
}

/// The number of files with one status.
#[derive(Debug, Clone, PartialEq, Eq)]
pub struct StatusCount {
    pub status: String,
    pub count: usize,
}

/// All the files that the counts speak of.
pub open spec fn count_all(rows: Seq<StatusCount>) -> int
    decreases rows.len(),
{
    if rows.len() == 0 {
        0
    } else {
        count_all(rows.drop_last()) + rows.last().count
    }
}

/// The number that is given for a status, the last one counting.
pub open spec fn count_of(rows: Seq<StatusCount>, status: Seq<char>) -> int
    decreases rows.len(),
{
    if rows.len() == 0 {
        0
    } else if rows.last().status@ == status {
        rows.last().count as int
    } else {
        count_of(rows.drop_last(), status)
    }
}

proof fn lemma_count_prefix(rows: Seq<StatusCount>, n: int)
    requires
        0 <= n <= rows.len(),
    ensures
        0 <= count_all(rows.take(n)) <= count_all(rows),
    decreases rows.len(),
{
    if n == rows.len() {
        assert(rows.take(n) =~= rows);
        if n > 0 {
            lemma_count_prefix(rows.drop_last(), n - 1);
        }
    } else {
        lemma_count_prefix(rows.drop_last(), n);
        assert(rows.drop_last().take(n) =~= rows.take(n));
    }
}

/// The total of a volume is what the counts of all statuses add up to, and the count of
/// a status is the one that was given for it, or nothing if none was.
pub proof fn law_counts_are_the_given_ones(rows: Seq<StatusCount>, status: Seq<char>)
    requires
        forall|i: int, j: int|
            0 <= i < j < rows.len() ==> (#[trigger] rows[i]).status@ != (
            #[trigger] rows[j]).status@,
    ensures
        count_all(rows) == selection::sum(rows.map_values(|r: StatusCount| r.count as int)),
        forall|i: int|
            0 <= i < rows.len() && (#[trigger] rows[i]).status@ == status ==> count_of(
                rows,
                status,
            ) == rows[i].count,
        (forall|i: int| 0 <= i < rows.len() ==> (#[trigger] rows[i]).status@ != status)
            ==> count_of(rows, status) == 0,
    decreases rows.len(),
{
    let counts = rows.map_values(|r: StatusCount| r.count as int);
    if rows.len() > 0 {
        let front = rows.drop_last();
        let n = rows.len() - 1;
        assert forall|i: int, j: int| 0 <= i < j < front.len() implies (
        #[trigger] front[i]).status@ != (#[trigger] front[j]).status@ by {
            assert(front[i] == rows[i] && front[j] == rows[j]);
        }
        law_counts_are_the_given_ones(front, status);
        assert(counts =~= front.map_values(|r: StatusCount| r.count as int).push(
            rows.last().count as int,
        ));
        selection::lemma_sum_push(
            front.map_values(|r: StatusCount| r.count as int),
            rows.last().count as int,
        );
        assert forall|i: int|
            0 <= i < rows.len() && (#[trigger] rows[i]).status@ == status implies count_of(
            rows,
            status,
        ) == rows[i].count by {
            if i < n {
                assert(front[i] == rows[i]);
                assert(rows[i].status@ != rows[n].status@);
            }
        }
        if forall|i: int| 0 <= i < rows.len() ==> (#[trigger] rows[i]).status@ != status {
            assert(rows[n].status@ != status);
            assert forall|i: int| 0 <= i < front.len() implies (#[trigger] front[i]).status@
                != status by {
                assert(rows[i].status@ != status);
            }
        }
    }
}

/// Adds up the counts of a volume.
pub fn volume_stats(rows: &Vec<StatusCount>) -> (r: VolumeFileStats)
    requires
        count_all(rows@) <= usize::MAX,
    ensures
        r.total == count_all(rows@),
        r.copied == count_of(rows@, "copied"@),
        r.pending == count_of(rows@, "pending"@),
        r.stale == count_of(rows@, "stale"@),
        r.failed == count_of(rows@, "failed"@),
{
    let mut r = VolumeFileStats::default();
    let mut i: usize = 0;
    proof {
        assert(rows@.take(0) =~= Seq::<StatusCount>::empty());
    }
    while i < rows.len()
        invariant
            i <= rows@.len(),
            count_all(rows@) <= usize::MAX,
            r.total == count_all(rows@.take(i as int)),
            r.copied == count_of(rows@.take(i as int), "copied"@),
            r.pending == count_of(rows@.take(i as int), "pending"@),
            r.stale == count_of(rows@.take(i as int), "stale"@),
            r.failed == count_of(rows@.take(i as int), "failed"@),
        decreases rows@.len() - i,
    {
        let row: &StatusCount = &rows[i];
        proof {
            assert(rows@.take(i + 1).drop_last() =~= rows@.take(i as int));
            assert(rows@.take(i + 1).last() == *row);
            lemma_count_prefix(rows@, i + 1);
            reveal_strlit("copied");
            reveal_strlit("pending");
            reveal_strlit("stale");
            reveal_strlit("failed");
            assert("copied"@ != "failed"@) by {
                assert("copied"@[0] != "failed"@[0]);
            }
            assert("copied"@ != "pending"@) by {
                assert("copied"@.len() != "pending"@.len());
            }
            assert("copied"@ != "stale"@) by {
                assert("copied"@.len() != "stale"@.len());
            }
            assert("pending"@ != "stale"@) by {
                assert("pending"@.len() != "stale"@.len());
            }
            assert("pending"@ != "failed"@) by {
                assert("pending"@.len() != "failed"@.len());
            }
            assert("stale"@ != "failed"@) by {
                assert("stale"@.len() != "failed"@.len());
            }
        }
        r.total = r.total + row.count;
        if text::same(row.status.as_str(), "copied") {
            r.copied = row.count;
        } else if text::same(row.status.as_str(), "pending") {
            r.pending = row.count;
        } else if text::same(row.status.as_str(), "stale") {
            r.stale = row.count;
        } else if text::same(row.status.as_str(), "failed") {
            r.failed = row.count;
        }
        i = i + 1;
    }
    proof {
        assert(rows@.take(rows@.len() as int) =~= rows@);
    }
    r
}

} // verus!
