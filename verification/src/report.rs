//! What the commands say to a person.

use vstd::prelude::*;

use crate::db::import::{ImportJobSummary, ImportStatusReport};
use crate::db::volume::VolumeFileStats;
use crate::error::Error;
use crate::import::job;
use crate::import::job::{ArtworkCandidate, ImportJob, PlannedFile};
use crate::import::progress;
use crate::import::state::FileState;
use crate::model::{ArchiveEntry, Playlist, VolumeIdentity};
use crate::sync::{SyncPlan, Transfer, VolumeDiffEntry, VolumeDiffState};
use crate::text;

verus! {

/// A number as text.
fn number(n: usize) -> (r: String)
    ensures
        r@ == text::decimal(n as nat),
{
    text::decimal_text(n as u64)
}

/// A text, or a substitute.
pub open spec fn or_else(s: Option<String>, fallback: Seq<char>) -> Seq<char> {
    match s {
        Some(t) => t@,
        None => fallback,
    }
}

/// What is known is shown, and only what is not known is replaced.
pub proof fn law_known_text_is_shown(s: Option<String>, fallback: Seq<char>)
    ensures
        s is Some ==> or_else(s, fallback) == s->0@,
        s is None ==> or_else(s, fallback) == fallback,
{
}

/// A text, or a substitute.
fn text_or<'a>(s: &'a Option<String>, fallback: &'a str) -> (r: &'a str)
    ensures
        r@ == or_else(*s, fallback@),
{
    match s {
        Some(t) => t.as_str(),
        None => fallback,
    }
}

// ---------------------------------------------------------------------------
// Imports
// ---------------------------------------------------------------------------

/// The folder that a one-shot import takes, which has to be given.
pub fn require_source(path: &Option<String>) -> (r: Result<String, Error>)
    ensures
        match *path {
            Some(p) => r matches Ok(s) && s@ == p@,
            None => r matches Err(Error::Other(m)) && m@
                == "import requires a source path or subcommand"@,
        },
{
    match path {
        Some(p) => Ok(p.clone()),
        None => Err(Error::Other("import requires a source path or subcommand".to_owned())),
    }
}

/// What a one-shot import says.
pub fn import_line(job_id: &str, committed: usize, artwork: usize) -> (r: String)
    ensures
        r@ == "job "@ + job_id@ + ": committed "@ + text::decimal(committed as nat)
            + " track(s), captured "@ + text::decimal(artwork as nat) + " cover-art object(s)"@,
{
    let mut s = text::cat3("job ", job_id, ": committed ");
    s.append(number(committed).as_str());
    s.append(" track(s), captured ");
    s.append(number(artwork).as_str());
    s.append(" cover-art object(s)");
    s
}

/// The line for a path of a planned job.
pub open spec fn path_line(label: Seq<char>, path: Seq<char>) -> Seq<char> {
    "  "@ + progress::right_aligned(label, 9) + "  "@ + path
}

/// The line for a path of a planned job.
fn line_for_path(label: &str, path: &str) -> (r: String)
    ensures
        r@ == path_line(label@, path@),
{
    let label = progress::align_right(label, 9);
    text::cat4("  ", label.as_str(), "  ", path)
}

/// What a planned job says: a summary, and a line for each file and each image.
pub open spec fn planned_lines(j: ImportJob) -> Seq<Seq<char>> {
    seq![
        "planned job "@ + j.id@ + ": "@ + text::decimal(j.files@.len()) + " file(s), "@
            + text::decimal(
            job::count_state(job::states(j.files@), FileState::Duplicate),
        ) + " duplicate(s), "@ + text::decimal(j.artwork@.len()) + " cover-art candidate(s)"@,
    ] + j.files@.map_values(|f: PlannedFile| path_line(f.state.name(), f.path@))
        + j.artwork@.map_values(|a: ArtworkCandidate| path_line("artwork"@, a.path@))
}

/// The report of a planned job has a heading, a line for each file that ends with its
/// path, in order, and a line for each candidate for artwork.
pub proof fn law_every_planned_file_is_shown(j: ImportJob)
    ensures
        planned_lines(j).len() == 1 + j.files@.len() + j.artwork@.len(),
        forall|i: int|
            0 <= i < j.files@.len() ==> (#[trigger] j.files@[i]).path@.is_suffix_of(
                planned_lines(j)[1 + i],
            ),
        forall|i: int|
            0 <= i < j.artwork@.len() ==> (#[trigger] j.artwork@[i]).path@.is_suffix_of(
                planned_lines(j)[1 + j.files@.len() + i],
            ),
{
    let lines = planned_lines(j);
    assert forall|i: int| 0 <= i < j.files@.len() implies (
    #[trigger] j.files@[i]).path@.is_suffix_of(lines[1 + i]) by {
        let f = j.files@[i];
        let line = path_line(f.state.name(), f.path@);
        assert(lines[1 + i] == line);
        assert(f.path@ =~= line.subrange(line.len() - f.path@.len(), line.len() as int));
    }
    assert forall|i: int| 0 <= i < j.artwork@.len() implies (
    #[trigger] j.artwork@[i]).path@.is_suffix_of(lines[1 + j.files@.len() + i]) by {
        let a = j.artwork@[i];
        let line = path_line("artwork"@, a.path@);
        assert(lines[1 + j.files@.len() + i] == line);
        assert(a.path@ =~= line.subrange(line.len() - a.path@.len(), line.len() as int));
    }
}

/// What a planned job says.
pub fn planned_job(j: &ImportJob) -> (r: Vec<String>)
    ensures
        text::views(r@) == planned_lines(*j),
{
    let stats = j.stats();
    let mut head = text::cat3("planned job ", j.id.as_str(), ": ");
    head.append(number(stats.total).as_str());
    head.append(" file(s), ");
    head.append(number(stats.duplicates).as_str());
    head.append(" duplicate(s), ");
    head.append(number(j.artwork.len()).as_str());
    head.append(" cover-art candidate(s)");
    let ghost files = j.files@.map_values(|f: PlannedFile| path_line(f.state.name(), f.path@));
    let ghost images = j.artwork@.map_values(
        |a: ArtworkCandidate| path_line("artwork"@, a.path@),
    );
    let ghost first = seq![head@];
    let mut r: Vec<String> = Vec::new();
    r.push(head);
    let mut i: usize = 0;
    proof {
        assert(text::views(r@) =~= first + files.take(0));
    }
    while i < j.files.len()
        invariant
            i <= j.files@.len(),
            files == j.files@.map_values(|f: PlannedFile| path_line(f.state.name(), f.path@)),
            text::views(r@) == first + files.take(i as int),
        decreases j.files@.len() - i,
    {
        let ghost before = text::views(r@);
        let line = line_for_path(j.files[i].state.as_str(), j.files[i].path.as_str());
        r.push(line);
        proof {
            assert(text::views(r@) =~= before.push(line@));
            assert(text::views(r@) =~= first + files.take(i + 1));
        }
        i = i + 1;
    }
    let mut k: usize = 0;
    proof {
        assert(files.take(j.files@.len() as int) =~= files);
        assert(text::views(r@) =~= first + files + images.take(0));
    }
    while k < j.artwork.len()
        invariant
            k <= j.artwork@.len(),
            images == j.artwork@.map_values(
                |a: ArtworkCandidate| path_line("artwork"@, a.path@),
            ),
            text::views(r@) == first + files + images.take(k as int),
        decreases j.artwork@.len() - k,
    {
        let ghost before = text::views(r@);
        let line = line_for_path("artwork", j.artwork[k].path.as_str());
        r.push(line);
        proof {
            assert(text::views(r@) =~= before.push(line@));
            assert(text::views(r@) =~= first + files + images.take(k + 1));
        }
        k = k + 1;
    }
    proof {
        assert(images.take(j.artwork@.len() as int) =~= images);
    }
    r
}

/// What a job says after it has been uploaded and verified.
pub fn run_result(j: &ImportJob) -> (r: String)
    ensures
        r@ == "job "@ + j.id@ + " phase="@ + j.phase.name() + " verified="@ + text::decimal(
            job::count_state(job::states(j.files@), FileState::Verified),
        ) + " failed="@ + text::decimal(
            job::count_state(job::states(j.files@), FileState::Failed),
        ),
{
    let stats = j.stats();
    let mut s = text::cat4("job ", j.id.as_str(), " phase=", j.phase.as_str());
    s.append(" verified=");
    s.append(number(stats.verified).as_str());
    s.append(" failed=");
    s.append(number(stats.failed).as_str());
    s
}

/// What a commit says.
pub fn commit_line(job_id: &str, committed: usize) -> (r: String)
    ensures
        r@ == "committed "@ + text::decimal(committed as nat) + " track(s) for job "@ + job_id@,
{
    let n = number(committed);
    text::cat4("committed ", n.as_str(), " track(s) for job ", job_id)
}

/// What is left to do after a job was resumed.
pub fn resume_hint(job_id: &str) -> (r: String)
    ensures
        r@ == "run `trove import commit "@ + job_id@ + "` when ready to promote"@,
{
    text::cat3("run `trove import commit ", job_id, "` when ready to promote")
}

/// The status of a job.
pub fn status_line(status: &ImportStatusReport) -> (r: String)
    ensures
        r@ == "job "@ + status.id@ + "  phase="@ + status.phase.name() + "  total="@
            + text::decimal(status.stats.total as nat) + " committed="@ + text::decimal(
            status.stats.committed as nat,
        ) + " failed="@ + text::decimal(status.stats.failed as nat) + " duplicates="@
            + text::decimal(status.stats.duplicates as nat),
{
    let mut s = text::cat4("job ", status.id.as_str(), "  phase=", status.phase.as_str());
    s.append("  total=");
    s.append(number(status.stats.total).as_str());
    s.append(" committed=");
    s.append(number(status.stats.committed).as_str());
    s.append(" failed=");
    s.append(number(status.stats.failed).as_str());
    s.append(" duplicates=");
    s.append(number(status.stats.duplicates).as_str());
    s
}

/// One job of a list. `updated` is when it last changed.
pub fn job_line(j: &ImportJobSummary, updated: &str) -> (r: String)
    ensures
        r@ == j.id@ + "  "@ + j.source_root@ + "  phase="@ + j.phase.name() + "  files="@
            + text::decimal(j.total_files as nat) + " committed="@ + text::decimal(
            j.stats.committed as nat,
        ) + " failed="@ + text::decimal(j.stats.failed as nat) + "  updated="@ + updated@,
{
    let mut s = text::cat4(j.id.as_str(), "  ", j.source_root.as_str(), "  phase=");
    s.append(j.phase.as_str());
    s.append("  files=");
    s.append(number(j.total_files).as_str());
    s.append(" committed=");
    s.append(number(j.stats.committed).as_str());
    s.append(" failed=");
    s.append(number(j.stats.failed).as_str());
    s.append("  updated=");
    s.append(updated);
    s
}

/// What pruning a job says.
pub fn prune_line(job_id: &str) -> (r: String)
    ensures
        r@ == "pruned import job "@ + job_id@,
{
    text::cat2("pruned import job ", job_id)
}

// ---------------------------------------------------------------------------
// Queries and playlists
// ---------------------------------------------------------------------------

/// One match of a query. `bpm` are its beats per minute, rounded.
pub fn match_line(entry: &ArchiveEntry, bpm: &Option<String>) -> (r: String)
    ensures
        r@ == entry.track_id.0@ + "  "@ + or_else(entry.metadata.artist, "?"@) + " - "@ + or_else(
            entry.metadata.title,
            "?"@,
        ) + " ["@ + (match *bpm {
            Some(b) => b@ + " BPM "@,
            None => ""@,
        }) + or_else(entry.metadata.key, "-"@) + "]"@,
{
    let artist = text_or(&entry.metadata.artist, "?");
    let title = text_or(&entry.metadata.title, "?");
    let mut s = text::cat4(entry.track_id.0.as_str(), "  ", artist, " - ");
    s.append(title);
    s.append(" [");
    match bpm {
        Some(b) => {
            let beats = text::cat2(b.as_str(), " BPM ");
            s.append(beats.as_str());
        },
        None => {
            s.append("");
        },
    }
    s.append(text_or(&entry.metadata.key, "-"));
    s.append("]");
    s
}

/// What making a playlist says.
pub fn created_line(p: &Playlist) -> (r: String)
    ensures
        r@ == "created playlist '"@ + p.name@ + "' ("@ + p.id@ + ")"@,
{
    let mut s = text::cat4("created playlist '", p.name.as_str(), "' (", p.id.as_str());
    s.append(")");
    s
}

/// What adding tracks to a playlist says.
pub fn added_line(count: usize, name: &str) -> (r: String)
    ensures
        r@ == "added "@ + text::decimal(count as nat) + " track(s) to '"@ + name@ + "'"@,
{
    let mut s = text::cat3("added ", number(count).as_str(), " track(s) to '");
    s.append(name);
    s.append("'");
    s
}

/// What removing a track from a playlist says.
pub fn removed_line(track_id: &str, name: &str) -> (r: String)
    ensures
        r@ == "removed "@ + track_id@ + " from '"@ + name@ + "'"@,
{
    let mut s = text::cat4("removed ", track_id, " from '", name);
    s.append("'");
    s
}

/// One playlist of a list.
pub fn playlist_line(p: &Playlist) -> (r: String)
    ensures
        r@ == p.id@ + "  "@ + p.name@,
{
    text::cat3(p.id.as_str(), "  ", p.name.as_str())
}

/// What pushing the index says.
pub fn pushed_line(generation: u64) -> (r: String)
    ensures
        r@ == "pushed canonical index at generation "@ + text::decimal(generation as nat),
{
    let n = text::decimal_text(generation);
    text::cat2("pushed canonical index at generation ", n.as_str())
}

// ---------------------------------------------------------------------------
// Volumes and syncs
// ---------------------------------------------------------------------------

/// What initializing a volume says.
pub fn initialized_line(identity: &VolumeIdentity, mount_point: &str) -> (r: String)
    ensures
        r@ == "initialized volume "@ + identity.volume_id@ + " at "@ + mount_point@,
{
    text::cat4("initialized volume ", identity.volume_id.as_str(), " at ", mount_point)
}

/// The status of a volume.
pub fn volume_status_line(identity: &VolumeIdentity, stats: &VolumeFileStats) -> (r: String)
    ensures
        r@ == "volume "@ + identity.volume_id@ + " (label: "@ + or_else(identity.label, "-"@)
            + ")  copied="@ + text::decimal(stats.copied as nat) + " pending="@ + text::decimal(
            stats.pending as nat,
        ) + " stale="@ + text::decimal(stats.stale as nat) + " failed="@ + text::decimal(
            stats.failed as nat,
        ),
{
    let label = text_or(&identity.label, "-");
    let mut s = text::cat4("volume ", identity.volume_id.as_str(), " (label: ", label);
    s.append(")  copied=");
    s.append(number(stats.copied).as_str());
    s.append(" pending=");
    s.append(number(stats.pending).as_str());
    s.append(" stale=");
    s.append(number(stats.stale).as_str());
    s.append(" failed=");
    s.append(number(stats.failed).as_str());
    s
}

/// One volume of a list.
pub fn volume_line(v: &VolumeIdentity) -> (r: String)
    ensures
        r@ == v.volume_id@ + "  "@ + or_else(v.label, "-"@),
{
    text::cat3(v.volume_id.as_str(), "  ", text_or(&v.label, "-"))
}

/// The name of a state.
pub open spec fn state_name(s: VolumeDiffState) -> Seq<char> {
    match s {
        VolumeDiffState::Present => "present"@,
        VolumeDiffState::Missing => "missing"@,
        VolumeDiffState::Stale => "stale"@,
    }
}

/// How a track stands on a volume is told apart by name.
pub proof fn law_states_are_named(s: VolumeDiffState)
    ensures
        s is Present ==> state_name(s) == "present"@,
        s is Missing ==> state_name(s) == "missing"@,
        s is Stale ==> state_name(s) == "stale"@,
{
}

/// One track of a comparison with a volume.
pub fn diff_line(e: &VolumeDiffEntry) -> (r: String)
    ensures
        r@ == progress::right_aligned(state_name(e.state), 7) + "  "@ + e.track_id.0@ + "  "@
            + e.relative_path@,
{
    let name = match e.state {
        VolumeDiffState::Present => "present",
        VolumeDiffState::Missing => "missing",
        VolumeDiffState::Stale => "stale",
    };
    let label = progress::align_right(name, 7);
    let mut s = text::cat4(label.as_str(), "  ", e.track_id.0.as_str(), "  ");
    s.append(e.relative_path.as_str());
    s
}

/// What a plan of a sync says: a summary, and a line for each transfer.
pub open spec fn sync_plan_lines(name: Seq<char>, mount: Seq<char>, plan: SyncPlan) -> Seq<
    Seq<char>,
> {
    seq![
        "sync plan for '"@ + name + "' -> "@ + mount + ": "@ + text::decimal(
            plan.transfers@.len(),
        ) + " transfer(s), "@ + text::decimal(plan.bytes_remaining as nat) + " byte(s), "@
            + text::decimal(plan.already_present@.len()) + " already present"@,
    ] + plan.transfers@.map_values(
        |t: Transfer| "  "@ + t.object_key@ + " -> "@ + t.relative_path@,
    )
}

/// The report of a sync has a heading and a line for each transfer, in order, that
/// names the object and ends with the path it goes to.
pub proof fn law_every_transfer_is_shown(name: Seq<char>, mount: Seq<char>, plan: SyncPlan, i: int)
    requires
        0 <= i < plan.transfers@.len(),
    ensures
        sync_plan_lines(name, mount, plan).len() == 1 + plan.transfers@.len(),
        plan.transfers@[i].relative_path@.is_suffix_of(sync_plan_lines(name, mount, plan)[1 + i]),
        ("  "@ + plan.transfers@[i].object_key@).is_prefix_of(
            sync_plan_lines(name, mount, plan)[1 + i],
        ),
{
    let t = plan.transfers@[i];
    let line = sync_plan_lines(name, mount, plan)[1 + i];
    assert(line == "  "@ + t.object_key@ + " -> "@ + t.relative_path@);
    let path = t.relative_path@;
    assert(path =~= line.subrange(line.len() - path.len(), line.len() as int));
    let head = "  "@ + t.object_key@;
    assert(head =~= line.subrange(0, head.len() as int));
}

/// What a plan of a sync says.
pub fn sync_plan(name: &str, mount: &str, plan: &SyncPlan) -> (r: Vec<String>)
    ensures
        text::views(r@) == sync_plan_lines(name@, mount@, *plan),
{
    let mut head = text::cat4("sync plan for '", name, "' -> ", mount);
    head.append(": ");
    head.append(number(plan.transfers.len()).as_str());
    head.append(" transfer(s), ");
    head.append(text::decimal_text(plan.bytes_remaining).as_str());
    head.append(" byte(s), ");
    head.append(number(plan.already_present.len()).as_str());
    head.append(" already present");
    let ghost first = seq![head@];
    let ghost tail = plan.transfers@.map_values(
        |t: Transfer| "  "@ + t.object_key@ + " -> "@ + t.relative_path@,
    );
    let mut r: Vec<String> = Vec::new();
    r.push(head);
    let mut i: usize = 0;
    proof {
        assert(text::views(r@) =~= first + tail.take(0));
    }
    while i < plan.transfers.len()
        invariant
            i <= plan.transfers@.len(),
            tail == plan.transfers@.map_values(
                |t: Transfer| "  "@ + t.object_key@ + " -> "@ + t.relative_path@,
            ),
            text::views(r@) == first + tail.take(i as int),
        decreases plan.transfers@.len() - i,
    {
        let ghost before = text::views(r@);
        let t: &Transfer = &plan.transfers[i];
        let line = text::cat4("  ", t.object_key.as_str(), " -> ", t.relative_path.as_str());
        r.push(line);
        proof {
            assert(text::views(r@) =~= before.push(line@));
            assert(text::views(r@) =~= first + tail.take(i + 1));
        }
        i = i + 1;
    }
    proof {
        assert(tail.take(plan.transfers@.len() as int) =~= tail);
    }
    r
}

/// What a sync says.
pub fn synced_line(name: &str, mount: &str, done: usize, failed: usize, skipped: usize) -> (r: String)
    ensures
        r@ == "synced '"@ + name@ + "' -> "@ + mount@ + ": "@ + text::decimal(done as nat)
            + " transferred, "@ + text::decimal(failed as nat) + " failed, "@ + text::decimal(
            skipped as nat,
        ) + " skipped"@,
{
    let mut s = text::cat4("synced '", name, "' -> ", mount);
    s.append(": ");
    s.append(number(done).as_str());
    s.append(" transferred, ");
    s.append(number(failed).as_str());
    s.append(" failed, ");
    s.append(number(skipped).as_str());
    s.append(" skipped");
    s
}

/// What a resumed sync says.
pub fn resumed_line(done: usize, failed: usize) -> (r: String)
    ensures
        r@ == "resumed sync: "@ + text::decimal(done as nat) + " transferred, "@ + text::decimal(
            failed as nat,
        ) + " failed"@,
{
    let mut s = text::cat3("resumed sync: ", number(done).as_str(), " transferred, ");
    s.append(number(failed).as_str());
    s.append(" failed");
    s
}

/// What verifying a volume says.
pub fn verified_line(mount: &str, present: usize, missing: usize, stale: usize) -> (r: String)
    ensures
        r@ == "verify "@ + mount@ + ": "@ + text::decimal(present as nat) + " present, "@
            + text::decimal(missing as nat) + " missing, "@ + text::decimal(stale as nat)
            + " stale"@,
{
    let mut s = text::cat3("verify ", mount, ": ");
    s.append(number(present).as_str());
    s.append(" present, ");
    s.append(number(missing).as_str());
    s.append(" missing, ");
    s.append(number(stale).as_str());
    s.append(" stale");
    s
}

} // verus!
