//! Sync jobs and their transfers.

use vstd::prelude::*;

use crate::error::Error;
use crate::model::Timestamp;
use crate::sync::Direction;
use crate::text;
use crate::time;

verus! {

/// The state of a sync job.
#[derive(Debug, Clone, Copy, PartialEq, Eq, Structural)]
pub enum SyncJobStatus {
    Active,
    Done,
}

impl SyncJobStatus {
    /// The name under which it is stored.
    pub open spec fn name(self) -> Seq<char> {
        match self {
            SyncJobStatus::Active => "active"@,
            SyncJobStatus::Done => "done"@,
        }
    }

    /// The value with the given name, if there is one.
    pub fn parse(s: &str) -> (r: Option<SyncJobStatus>)
        ensures
            r matches Some(v) ==> v.name() == s@,
            r is None ==> forall|v: SyncJobStatus| #[trigger] v.name() != s@,
    {
        if text::same(s, "active") {
            Some(SyncJobStatus::Active)
        } else if text::same(s, "done") {
            Some(SyncJobStatus::Done)
        } else {
            None
        }
    }

    /// The name under which it is stored.
    pub fn as_str(self) -> (r: &'static str)
        ensures
            r@ == self.name(),
    {
        match self {
            SyncJobStatus::Active => "active",
            SyncJobStatus::Done => "done",
        }
    }
}

/// The names under which the states of sync jobs are stored.
pub proof fn law_sync_job_names(s: SyncJobStatus)
    ensures
        s is Active ==> s.name() == "active"@,
        s is Done ==> s.name() == "done"@,
{
}

/// No two states have the same name, so a stored state is read back as itself.
pub proof fn law_sync_job_names_distinct(a: SyncJobStatus, b: SyncJobStatus)
    requires
        a.name() == b.name(),
    ensures
        a == b,
{
    reveal_strlit("active");
    reveal_strlit("done");
    let x = a.name();
    let y = b.name();
    assert(x.len() == y.len());
}

/// The state of a transfer.
#[derive(Debug, Clone, Copy, PartialEq, Eq, Structural)]
pub enum TransferStatus {
    Pending,
    Active,
    Done,
    Failed,
}

impl TransferStatus {
    /// The name under which it is stored.
    pub open spec fn name(self) -> Seq<char> {
        match self {
            TransferStatus::Pending => "pending"@,
            TransferStatus::Active => "active"@,
            TransferStatus::Done => "done"@,
            TransferStatus::Failed => "failed"@,
        }
    }

    /// The value with the given name, if there is one.
    pub fn parse(s: &str) -> (r: Option<TransferStatus>)
        ensures
            r matches Some(v) ==> v.name() == s@,
            r is None ==> forall|v: TransferStatus| #[trigger] v.name() != s@,
    {
        if text::same(s, "pending") {
            Some(TransferStatus::Pending)
        } else if text::same(s, "active") {
            Some(TransferStatus::Active)
        } else if text::same(s, "done") {
            Some(TransferStatus::Done)
        } else if text::same(s, "failed") {
            Some(TransferStatus::Failed)
        } else {
            None
        }
    }

    /// The name under which it is stored.
    pub fn as_str(self) -> (r: &'static str)
        ensures
            r@ == self.name(),
    {
        match self {
            TransferStatus::Pending => "pending",
            TransferStatus::Active => "active",
            TransferStatus::Done => "done",
            TransferStatus::Failed => "failed",
        }
    }
}

/// The names under which the states of transfers are stored.
pub proof fn law_transfer_names(s: TransferStatus)
    ensures
        s is Pending ==> s.name() == "pending"@,
        s is Active ==> s.name() == "active"@,
        s is Done ==> s.name() == "done"@,
        s is Failed ==> s.name() == "failed"@,
{
}

/// No two states have the same name, so a stored state is read back as itself.
pub proof fn law_transfer_names_distinct(a: TransferStatus, b: TransferStatus)
    requires
        a.name() == b.name(),
    ensures
        a == b,
{
    reveal_strlit("pending");
    reveal_strlit("active");
    reveal_strlit("done");
    reveal_strlit("failed");
    let x = a.name();
    let y = b.name();
    assert(x.len() == y.len());
    assert(x[0] == y[0]);
}

/// A sync job.
#[derive(Debug, Clone, PartialEq, Eq)]
pub struct SyncJobSummary {
    pub id: String,
    pub volume_id: String,
    pub mount_point: String,
    pub playlist_name: Option<String>,
    pub status: String,
    pub created_at: Timestamp,
    pub updated_at: Timestamp,
}

/// A transfer of a sync job.
#[derive(Debug, Clone, PartialEq, Eq)]
pub struct TransferRow {
    pub id: String,
    pub job_id: String,
    pub volume_id: String,
    pub track_id: String,
    pub object_key: String,
    pub relative_path: String,
    pub local_path: Option<String>,
    pub bytes_total: u64,
    pub bytes_done: u64,
    pub status: TransferStatus,
    pub attempts: u32,
}

/// A transfer, as the database holds it.
#[derive(Debug, Clone, PartialEq, Eq)]
pub struct StoredTransfer {
    pub id: String,
    pub job_id: String,
    pub volume_id: String,
    pub track_id: String,
    pub object_key: String,
    pub relative_path: String,
    pub local_path: Option<String>,
    pub bytes_total: i64,
    pub bytes_done: i64,
    pub status: String,
    pub attempts: u32,
}

/// The name under which a direction is stored.
pub open spec fn direction_name(d: Direction) -> Seq<char> {
    match d {
        Direction::Download => "download"@,
        Direction::Upload => "upload"@,
    }
}

/// The two directions are stored under different names.
pub proof fn law_directions_are_told_apart(a: Direction, b: Direction)
    requires
        direction_name(a) == direction_name(b),
    ensures
        a == b,
        a is Download ==> direction_name(a) == "download"@,
        a is Upload ==> direction_name(a) == "upload"@,
{
    reveal_strlit("download");
    reveal_strlit("upload");
    assert("download"@.len() == 8 && "upload"@.len() == 6);
}

/// The name under which a direction is stored.
pub fn direction_str(direction: Direction) -> (r: &'static str)
    ensures
        r@ == direction_name(direction),
{
    match direction {
        Direction::Download => "download",
        Direction::Upload => "upload",
    }
}

/// Reads a transfer. Fails exactly on a status that there is none of.
pub fn row_to_transfer(row: StoredTransfer) -> (r: Result<TransferRow, Error>)
    ensures
        match r {
            Ok(t) => {
                &&& t.id == row.id
                &&& t.job_id == row.job_id
                &&& t.volume_id == row.volume_id
                &&& t.track_id == row.track_id
                &&& t.object_key == row.object_key
                &&& t.relative_path == row.relative_path
                &&& t.local_path == row.local_path
                &&& t.bytes_total == row.bytes_total as u64
                &&& t.bytes_done == row.bytes_done as u64
                &&& t.status.name() == row.status@
                &&& t.attempts == row.attempts
            },
            Err(e) => {
                &&& forall|s: TransferStatus| #[trigger] s.name() != row.status@
                &&& e matches Error::Db(m) && m@ == "Invalid column type Text at index: 9, name: "@
                    + row.status@
            },
        },
{
    match TransferStatus::parse(row.status.as_str()) {
        Some(status) => Ok(
            TransferRow {
                id: row.id,
                job_id: row.job_id,
                volume_id: row.volume_id,
                track_id: row.track_id,
                object_key: row.object_key,
                relative_path: row.relative_path,
                local_path: row.local_path,
                bytes_total: row.bytes_total as u64,
                bytes_done: row.bytes_done as u64,
                status,
                attempts: row.attempts,
            },
        ),
        None => Err(
            Error::Db(
                text::cat2("Invalid column type Text at index: 9, name: ", row.status.as_str()),
            ),
        ),
    }
}

/// A sync job, as the database holds it.
#[derive(Debug, Clone, PartialEq, Eq)]
pub struct StoredSyncJob {
    pub id: String,
    pub volume_id: String,
    pub mount_point: String,
    pub playlist_name: Option<String>,
    pub status: String,
    pub created_at: String,
    pub updated_at: String,
}

/// Whether a stored job can be read.
pub open spec fn is_readable(row: StoredSyncJob) -> bool {
    &&& exists|s: SyncJobStatus| #[trigger] s.name() == row.status@
    &&& time::rfc3339_reading(row.created_at@) is Ok
    &&& time::rfc3339_reading(row.updated_at@) is Ok
}

/// Reads a sync job. Fails exactly on a status that there is none of and on
/// times that cannot be read; the status comes first, then the time of making,
/// then that of the last change.
pub fn row_to_sync_job(row: StoredSyncJob) -> (r: Result<SyncJobSummary, Error>)
    ensures
        r is Ok <==> is_readable(row),
        match r {
            Ok(j) => {
                &&& j.id == row.id
                &&& j.volume_id == row.volume_id
                &&& j.mount_point == row.mount_point
                &&& j.playlist_name == row.playlist_name
                &&& j.status == row.status
                &&& time::rfc3339_reading(row.created_at@) == Ok::<(i64, u32), Seq<char>>(
                    (j.created_at.secs, j.created_at.nanos),
                )
                &&& time::rfc3339_reading(row.updated_at@) == Ok::<(i64, u32), Seq<char>>(
                    (j.updated_at.secs, j.updated_at.nanos),
                )
            },
            Err(e) => e matches Error::Db(m) && if forall|s: SyncJobStatus| #[trigger]
                s.name() != row.status@ {
                m@ == "Invalid column type Text at index: 4, name: "@ + row.status@
            } else {
                match time::rfc3339_reading(row.created_at@) {
                    Err(why) => m@ == time::bad_moment(row.created_at@, why),
                    Ok(_) => time::rfc3339_reading(row.updated_at@) matches Err(why) && m@
                        == time::bad_moment(row.updated_at@, why),
                }
            },
        },
{
    match SyncJobStatus::parse(row.status.as_str()) {
        Some(s) => {
            assert(s.name() == row.status@);
        },
        None => {
            return Err(
                Error::Db(
                    text::cat2("Invalid column type Text at index: 4, name: ", row.status.as_str()),
                ),
            );
        },
    }
    let created_at = match time::parse_ts(row.created_at.as_str()) {
        Ok(t) => t,
        Err(e) => {
            return Err(in_database(e));
        },
    };
    let updated_at = match time::parse_ts(row.updated_at.as_str()) {
        Ok(t) => t,
        Err(e) => {
            return Err(in_database(e));
        },
    };
    Ok(
        SyncJobSummary {
            id: row.id,
            volume_id: row.volume_id,
            mount_point: row.mount_point,
            playlist_name: row.playlist_name,
            status: row.status,
            created_at,
            updated_at,
        },
    )
}

/// An error met while a row was read, as an error of the database.
fn in_database(e: Error) -> (r: Error)
    ensures
        r matches Error::Db(m) && m@ == e.shown(),
{
    Error::Db(e.message())
}

} // verus!
