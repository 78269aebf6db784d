//! Progress of an import, for whoever wants to show it.

use vstd::prelude::*;

use crate::import::job;
use crate::import::state::{FileState, Phase};
use crate::path;
use crate::text;

verus! {

/// What a progress event is about.
#[derive(Debug, Clone, Copy, PartialEq, Eq, Structural)]
pub enum ImportProgressKind {
    JobCreated,
    PhaseStart,
    FileDone,
    PhaseDone,
}

/// One progress update.
#[derive(Debug, Clone, PartialEq, Eq)]
pub struct ImportProgressEvent {
    pub kind: ImportProgressKind,
    pub phase: Phase,
    pub job_id: String,
    pub files_done: usize,
    pub files_total: usize,
    /// Milliseconds since the current step began.
    pub elapsed_ms: u64,
    pub path: Option<String>,
    pub file_state: Option<FileState>,
}

/// A listener for progress events.
pub trait ImportProgress {
    /// Called for each event.
    fn on_progress(&mut self, event: &ImportProgressEvent);
}

/// A listener that does nothing.
#[derive(Debug, Clone, Copy, PartialEq, Eq, Structural)]
pub struct NoopImportProgress;

impl Default for NoopImportProgress {
    fn default() -> (r: NoopImportProgress)
        ensures
            r == NoopImportProgress,
    {
        NoopImportProgress
    }
}

impl ImportProgress for NoopImportProgress {
    fn on_progress(&mut self, event: &ImportProgressEvent) {
    }
}

/// The event of a job that has just been created.
pub fn job_created(job_id: &str, elapsed_ms: u64) -> (r: ImportProgressEvent)
    ensures
        r.kind is JobCreated,
        r.phase is Fingerprint,
        r.job_id@ == job_id@,
        r.files_done == 0,
        r.files_total == 0,
        r.elapsed_ms == elapsed_ms,
        r.path is None,
        r.file_state is None,
{
    ImportProgressEvent {
        kind: ImportProgressKind::JobCreated,
        phase: Phase::Fingerprint,
        job_id: job_id.to_owned(),
        files_done: 0,
        files_total: 0,
        elapsed_ms,
        path: None,
        file_state: None,
    }
}

/// The event of a phase that starts.
pub fn phase_start(job_id: &str, phase: Phase, files_total: usize, elapsed_ms: u64) -> (r:
    ImportProgressEvent)
    ensures
        r.kind is PhaseStart,
        r.phase == phase,
        r.job_id@ == job_id@,
        r.files_done == 0,
        r.files_total == files_total,
        r.elapsed_ms == elapsed_ms,
        r.path is None,
        r.file_state is None,
{
    ImportProgressEvent {
        kind: ImportProgressKind::PhaseStart,
        phase,
        job_id: job_id.to_owned(),
        files_done: 0,
        files_total,
        elapsed_ms,
        path: None,
        file_state: None,
    }
}

/// The event of a file that is done.
pub fn file_done(
    job_id: &str,
    phase: Phase,
    files_done: usize,
    files_total: usize,
    path: &str,
    file_state: FileState,
    elapsed_ms: u64,
) -> (r: ImportProgressEvent)
    ensures
        r.kind is FileDone,
        r.phase == phase,
        r.job_id@ == job_id@,
        r.files_done == files_done,
        r.files_total == files_total,
        r.elapsed_ms == elapsed_ms,
        text::opt_view(r.path) == Some(path@),
        r.file_state == Some(file_state),
{
    ImportProgressEvent {
        kind: ImportProgressKind::FileDone,
        phase,
        job_id: job_id.to_owned(),
        files_done,
        files_total,
        elapsed_ms,
        path: Some(path.to_owned()),
        file_state: Some(file_state),
    }
}

/// The event of a phase that is over.
pub fn phase_done(
    job_id: &str,
    phase: Phase,
    files_done: usize,
    files_total: usize,
    elapsed_ms: u64,
) -> (r: ImportProgressEvent)
    ensures
        r.kind is PhaseDone,
        r.phase == phase,
        r.job_id@ == job_id@,
        r.files_done == files_done,
        r.files_total == files_total,
        r.elapsed_ms == elapsed_ms,
        r.path is None,
        r.file_state is None,
{
    ImportProgressEvent {
        kind: ImportProgressKind::PhaseDone,
        phase,
        job_id: job_id.to_owned(),
        files_done,
        files_total,
        elapsed_ms,
        path: None,
        file_state: None,
    }
}

/// A text padded on the left with spaces.
pub open spec fn right_aligned(s: Seq<char>, width: nat) -> Seq<char> {
    if s.len() >= width {
        s
    } else {
        Seq::new((width - s.len()) as nat, |i: int| ' ') + s
    }
}

/// A text that is aligned to the right ends with itself, has only spaces before it, and
/// is as wide as asked, unless it was wider.
pub proof fn law_aligned_text_ends_with_itself(s: Seq<char>, width: nat)
    ensures
        ({
            let r = right_aligned(s, width);
            let pad = r.len() - s.len();
            &&& s.len() <= width ==> r.len() == width
            &&& s.len() > width ==> r == s
            &&& pad >= 0
            &&& r.skip(pad) == s
            &&& forall|i: int| 0 <= i < pad ==> #[trigger] r[i] == ' '
        }),
{
    let r = right_aligned(s, width);
    assert(r.skip(r.len() - s.len()) =~= s);
}

/// A text padded on the left with spaces.
pub fn align_right(s: &str, width: usize) -> (r: String)
    ensures
        r@ == right_aligned(s@, width as nat),
{
    let count: usize = s.unicode_len();
    let mut r = String::new();
    let mut i: usize = count;
    while i < width
        invariant
            count <= i,
            i <= width || i == count,
            r@ == Seq::new((i - count) as nat, |k: int| ' '),
        decreases width - i,
    {
        r.push(' ');
        i = i + 1;
        proof {
            assert(r@ =~= Seq::new((i - count) as nat, |k: int| ' '));
        }
    }
    r.append(s);
    proof {
        if count >= width {
            assert(r@ =~= s@);
        }
    }
    r
}

/// A span of time as minutes and seconds, rounded to the nearest second.
pub open spec fn elapsed(ms: nat) -> Seq<char> {
    let total = (ms + 500) / 1000;
    text::decimal(total / 60) + ":"@ + text::padded(text::decimal(total % 60), 2)
}

/// A time is shown in minutes and seconds, to the nearest second.
pub proof fn law_elapsed_is_minutes_and_seconds(minutes: nat, seconds: nat, ms: nat)
    requires
        seconds < 60,
        60_000 * minutes + 1_000 * seconds <= ms + 500 < 60_000 * minutes + 1_000 * seconds
            + 1_000,
    ensures
        elapsed(ms) == text::decimal(minutes) + ":"@ + text::padded(text::decimal(seconds), 2),
{
    let total = (ms + 500) / 1000;
    assert(total == 60 * minutes + seconds);
    assert(total / 60 == minutes && total % 60 == seconds);
}

/// A span of time as minutes and seconds, rounded to the nearest second.
pub fn format_elapsed(ms: u64) -> (r: String)
    ensures
        r@ == elapsed(ms as nat),
{
    let whole: u64 = ms / 1000;
    let total: u64 = if ms % 1000 >= 500 {
        whole + 1
    } else {
        whole
    };
    proof {
        assert(total == (ms + 500) / 1000);
    }
    let minutes = text::decimal_text(total / 60);
    let seconds = text::padded_decimal_text(total % 60, 2);
    text::cat3(minutes.as_str(), ":", seconds.as_str())
}

/// The line that a terminal shows for an event, if any.
pub open spec fn shown_line(e: ImportProgressEvent) -> Option<Seq<char>> {
    match e.kind {
        ImportProgressKind::JobCreated => Some("job_id: "@ + e.job_id@),
        ImportProgressKind::PhaseStart => Some(
            e.phase.name() + ": "@ + text::decimal(e.files_total as nat) + " file(s)"@,
        ),
        ImportProgressKind::FileDone => Some(
            ("  "@ + right_aligned(text::decimal(e.files_done as nat), 4) + "/"@ + text::decimal(
                e.files_total as nat,
            )) + ("  "@ + right_aligned(elapsed(e.elapsed_ms as nat), 5) + "  "@
                + match text::opt_view(e.path) {
                Some(p) => job::name_or(p, "?"@),
                None => "?"@,
            }),
        ),
        ImportProgressKind::PhaseDone => None,
    }
}

/// What is shown of the progress: the id of a new job, how many files a phase has to
/// treat, and of each file that is done its name; the end of a phase is not shown.
pub proof fn law_progress_names_job_phase_and_file(
    e: ImportProgressEvent,
    dir: Seq<char>,
    name: Seq<char>,
)
    requires
        path::is_name(name),
    ensures
        e.kind is JobCreated ==> shown_line(e) == Some("job_id: "@ + e.job_id@),
        e.kind is PhaseStart ==> shown_line(e) == Some(
            e.phase.name() + ": "@ + text::decimal(e.files_total as nat) + " file(s)"@,
        ),
        e.kind is PhaseDone ==> shown_line(e) is None,
        e.kind is FileDone ==> shown_line(e) is Some,
        e.kind is FileDone && e.path is Some && e.path->0@ == dir.push('/') + name
            ==> name.is_suffix_of(shown_line(e)->0),
{
    path::law_last_name_stands_behind_the_separator(dir, name);
    if e.kind is FileDone && e.path is Some && e.path->0@ == dir.push('/') + name {
        let line = shown_line(e)->0;
        assert(name =~= line.subrange(line.len() - name.len(), line.len() as int));
    }
}

/// The line that a terminal shows for an event, if any.
pub fn progress_line(e: &ImportProgressEvent) -> (r: Option<String>)
    ensures
        text::opt_view(r) == shown_line(*e),
{
    match e.kind {
        ImportProgressKind::JobCreated => Some(text::cat2("job_id: ", e.job_id.as_str())),
        ImportProgressKind::PhaseStart => {
            let total = text::decimal_text(e.files_total as u64);
            Some(text::cat4(e.phase.as_str(), ": ", total.as_str(), " file(s)"))
        },
        ImportProgressKind::FileDone => {
            let done = text::decimal_text(e.files_done as u64);
            let done = align_right(done.as_str(), 4);
            let total = text::decimal_text(e.files_total as u64);
            let mut line = text::cat4("  ", done.as_str(), "/", total.as_str());
            let time = format_elapsed(e.elapsed_ms);
            let time = align_right(time.as_str(), 5);
            let name = match &e.path {
                Some(p) => job::name_or_else(p.as_str(), "?"),
                None => "?".to_owned(),
            };
            let tail = text::cat4("  ", time.as_str(), "  ", name.as_str());
            line.append(tail.as_str());
            Some(line)
        },
        ImportProgressKind::PhaseDone => None,
    }
}

} // verus!
