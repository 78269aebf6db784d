//! The explicit state of an import and of each of its files.

use vstd::prelude::*;

use crate::text;

verus! {

/// The phases of an import, in order.
#[derive(Debug, Clone, Copy, PartialEq, Eq, Structural)]
pub enum Phase {
    Scan,
    Fingerprint,
    Dedupe,
    Upload,
    Verify,
    Commit,
    Done,
}

impl Phase {
    /// The name under which it is stored.
    pub open spec fn name(self) -> Seq<char> {
        match self {
            Phase::Scan => "scan"@,
            Phase::Fingerprint => "fingerprint"@,
            Phase::Dedupe => "dedupe"@,
            Phase::Upload => "upload"@,
            Phase::Verify => "verify"@,
            Phase::Commit => "commit"@,
            Phase::Done => "done"@,
        }
    }

    /// The value with the given name, if there is one.
    pub fn parse(s: &str) -> (r: Option<Phase>)
        ensures
            r matches Some(v) ==> v.name() == s@,
            r is None ==> forall|v: Phase| #[trigger] v.name() != s@,
    {
        if text::same(s, "scan") {
            Some(Phase::Scan)
        } else if text::same(s, "fingerprint") {
            Some(Phase::Fingerprint)
        } else if text::same(s, "dedupe") {
            Some(Phase::Dedupe)
        } else if text::same(s, "upload") {
            Some(Phase::Upload)
        } else if text::same(s, "verify") {
            Some(Phase::Verify)
        } else if text::same(s, "commit") {
            Some(Phase::Commit)
        } else if text::same(s, "done") {
            Some(Phase::Done)
        } else {
            None
        }
    }

    /// The name under which it is stored.
    pub fn as_str(&self) -> (r: &'static str)
        ensures
            r@ == self.name(),
    {
        match self {
            Phase::Scan => "scan",
            Phase::Fingerprint => "fingerprint",
            Phase::Dedupe => "dedupe",
            Phase::Upload => "upload",
            Phase::Verify => "verify",
            Phase::Commit => "commit",
            Phase::Done => "done",
        }
    }
}

/// The names under which phases are stored.
pub proof fn law_phase_names(p: Phase)
    ensures
        p is Scan ==> p.name() == "scan"@,
        p is Fingerprint ==> p.name() == "fingerprint"@,
        p is Dedupe ==> p.name() == "dedupe"@,
        p is Upload ==> p.name() == "upload"@,
        p is Verify ==> p.name() == "verify"@,
        p is Commit ==> p.name() == "commit"@,
        p is Done ==> p.name() == "done"@,
{
}

/// No two phases have the same name, so a stored phase is read back as itself.
pub proof fn law_phase_names_distinct(a: Phase, b: Phase)
    requires
        a.name() == b.name(),
    ensures
        a == b,
{
    reveal_strlit("scan");
    reveal_strlit("fingerprint");
    reveal_strlit("dedupe");
    reveal_strlit("upload");
    reveal_strlit("verify");
    reveal_strlit("commit");
    reveal_strlit("done");
    let x = a.name();
    let y = b.name();
    assert(x.len() == y.len());
    assert(x[0] == y[0]);
}

/// The state of one file of an import.
///
/// ```text
/// pending -> scanning -> hashed -> duplicate
///                               -> uploading -> uploaded -> verified -> committed
///                               -> failed
/// ```
#[derive(Debug, Clone, Copy, PartialEq, Eq, Structural)]
pub enum FileState {
    Pending,
    Scanning,
    Hashed,
    Duplicate,
    Uploading,
    Uploaded,
    Verified,
    Committed,
    Failed,
}

impl FileState {
    /// The name under which it is stored.
    pub open spec fn name(self) -> Seq<char> {
        match self {
            FileState::Pending => "pending"@,
            FileState::Scanning => "scanning"@,
            FileState::Hashed => "hashed"@,
            FileState::Duplicate => "duplicate"@,
            FileState::Uploading => "uploading"@,
            FileState::Uploaded => "uploaded"@,
            FileState::Verified => "verified"@,
            FileState::Committed => "committed"@,
            FileState::Failed => "failed"@,
        }
    }

    /// The value with the given name, if there is one.
    pub fn parse(s: &str) -> (r: Option<FileState>)
        ensures
            r matches Some(v) ==> v.name() == s@,
            r is None ==> forall|v: FileState| #[trigger] v.name() != s@,
    {
        if text::same(s, "pending") {
            Some(FileState::Pending)
        } else if text::same(s, "scanning") {
            Some(FileState::Scanning)
        } else if text::same(s, "hashed") {
            Some(FileState::Hashed)
        } else if text::same(s, "duplicate") {
            Some(FileState::Duplicate)
        } else if text::same(s, "uploading") {
            Some(FileState::Uploading)
        } else if text::same(s, "uploaded") {
            Some(FileState::Uploaded)
        } else if text::same(s, "verified") {
            Some(FileState::Verified)
        } else if text::same(s, "committed") {
            Some(FileState::Committed)
        } else if text::same(s, "failed") {
            Some(FileState::Failed)
        } else {
            None
        }
    }

    /// The name under which it is stored.
    pub fn as_str(&self) -> (r: &'static str)
        ensures
            r@ == self.name(),
    {
        match self {
            FileState::Pending => "pending",
            FileState::Scanning => "scanning",
            FileState::Hashed => "hashed",
            FileState::Duplicate => "duplicate",
            FileState::Uploading => "uploading",
            FileState::Uploaded => "uploaded",
            FileState::Verified => "verified",
            FileState::Committed => "committed",
            FileState::Failed => "failed",
        }
    }

    /// Whether nothing more is done with a file in this state.
    pub open spec fn terminal(self) -> bool {
        self is Duplicate || self is Committed || self is Failed
    }

    /// Whether nothing more is done with a file in this state.
    pub fn is_terminal(&self) -> (r: bool)
        ensures
            r == self.terminal(),
    {
        match self {
            FileState::Duplicate => true,
            FileState::Committed => true,
            FileState::Failed => true,
            _ => false,
        }
    }
}

/// A file is at its end once it is a duplicate, committed or failed, and not before.
pub proof fn law_terminal_states(s: FileState)
    ensures
        s.terminal() <==> !(s is Pending || s is Scanning || s is Hashed || s is Uploading
            || s is Uploaded || s is Verified),
{
}

/// The names under which the states of files are stored.
pub proof fn law_file_state_names(s: FileState)
    ensures
        s is Pending ==> s.name() == "pending"@,
        s is Scanning ==> s.name() == "scanning"@,
        s is Hashed ==> s.name() == "hashed"@,
        s is Duplicate ==> s.name() == "duplicate"@,
        s is Uploading ==> s.name() == "uploading"@,
        s is Uploaded ==> s.name() == "uploaded"@,
        s is Verified ==> s.name() == "verified"@,
        s is Committed ==> s.name() == "committed"@,
        s is Failed ==> s.name() == "failed"@,
{
}

/// No two file states have the same name, so a stored state is read back as itself.
pub proof fn law_file_state_names_distinct(a: FileState, b: FileState)
    requires
        a.name() == b.name(),
    ensures
        a == b,
{
    reveal_strlit("pending");
    reveal_strlit("scanning");
    reveal_strlit("hashed");
    reveal_strlit("duplicate");
    reveal_strlit("uploading");
    reveal_strlit("uploaded");
    reveal_strlit("verified");
    reveal_strlit("committed");
    reveal_strlit("failed");
    let x = a.name();
    let y = b.name();
    assert(x.len() == y.len());
    assert(x[0] == y[0]);
}

} // verus!
