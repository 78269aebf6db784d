//! One pass over the files of a job that are in a given state.

use vstd::prelude::*;

use crate::import::job;
use crate::import::job::{ImportJob, PlannedFile};
use crate::import::state::{FileState, Phase};

verus! {

/// Whether a job is another one but for its phase and its files.
pub open spec fn same_job(a: ImportJob, b: ImportJob) -> bool {
    &&& a.id == b.id
    &&& a.source_root == b.source_root
    &&& a.staging_prefix == b.staging_prefix
    &&& a.artwork == b.artwork
}

/// Whether every file that was in the given state has come out as `outcome`
/// allows, and every other file is as it was.
pub open spec fn passed(
    before: Seq<PlannedFile>,
    after: Seq<PlannedFile>,
    wanted: FileState,
    outcome: spec_fn(PlannedFile, PlannedFile) -> bool,
) -> bool {
    &&& before.len() == after.len()
    &&& forall|k: int|
        0 <= k < before.len() ==> if (#[trigger] before[k]).state == wanted {
            outcome(before[k], after[k])
        } else {
            after[k] == before[k]
        }
}

/// A pass in progress.
pub struct PhaseRun {
    job: ImportJob,
    wanted: FileState,
    next: usize,
    busy: bool,
    done: usize,
    pending: usize,
    start: Ghost<ImportJob>,
    outcome: Ghost<spec_fn(PlannedFile, PlannedFile) -> bool>,
}

impl PhaseRun {
    /// Whether the pass has treated the files before its place, and none
    /// behind it.
    pub closed spec fn wf(self) -> bool {
        let before = self.start@.files@;
        let after = self.job.files@;
        &&& same_job(self.job, self.start@)
        &&& before.len() == after.len()
        &&& self.next <= after.len()
        &&& self.done == job::count_state(
            job::states(before).take(self.next as int),
            self.wanted,
        )
        &&& self.busy ==> self.next < after.len() && before[self.next as int].state == self.wanted
        &&& self.pending == job::count_state(job::states(before), self.wanted)
        &&& forall|k: int|
            0 <= k < self.next ==> if (#[trigger] before[k]).state == self.wanted {
                (self.outcome@)(before[k], after[k])
            } else {
                after[k] == before[k]
            }
        &&& forall|k: int|
            self.next <= k < before.len() && !(self.busy && k == self.next) ==> #[trigger] after[k]
                == before[k]
    }

    /// The job as the pass found it.
    pub closed spec fn begun(self) -> ImportJob {
        self.start@
    }

    /// The state of the files that the pass treats.
    pub closed spec fn wants(self) -> FileState {
        self.wanted
    }

    /// What a treated file may come out as.
    pub closed spec fn allows(self) -> spec_fn(PlannedFile, PlannedFile) -> bool {
        self.outcome@
    }

    /// The place of the pass.
    pub closed spec fn at(self) -> int {
        self.next as int
    }

    /// Whether a file is being treated.
    pub closed spec fn is_busy(self) -> bool {
        self.busy
    }

    /// The files as they are now.
    pub closed spec fn now(self) -> Seq<PlannedFile> {
        self.job.files@
    }

    /// The phase that the job is in.
    pub closed spec fn phase(self) -> Phase {
        self.job.phase
    }

    /// How many files have been treated: those before the place of the pass that
    /// were in the wanted state.
    pub open spec fn treated(self) -> nat {
        job::count_state(job::states(self.begun().files@).take(self.at()), self.wants())
    }

    /// Everything about a pass but its place.
    pub open spec fn same_pass(self, other: PhaseRun) -> bool {
        &&& self.begun() == other.begun()
        &&& self.wants() == other.wants()
        &&& self.allows() == other.allows()
        &&& self.phase() == other.phase()
    }

    /// A pass neither adds nor drops a file, and its place is within them.
    pub proof fn lemma_bounds(self)
        requires
            self.wf(),
        ensures
            self.now().len() == self.begun().files@.len(),
            0 <= self.at() <= self.now().len(),
            self.is_busy() ==> self.at() < self.now().len(),
    {
    }

    /// Starts a pass.
    pub fn begin(
        job: ImportJob,
        phase: Phase,
        wanted: FileState,
        outcome: Ghost<spec_fn(PlannedFile, PlannedFile) -> bool>,
    ) -> (r: PhaseRun)
        ensures
            r.wf(),
            r.begun() == job,
            r.wants() == wanted,
            r.allows() == outcome@,
            r.at() == 0,
            !r.is_busy(),
            r.now() == job.files@,
            r.phase() == phase,
            r.treated() == 0,
    {
        let pending: usize = job::count_in_state(&job.files, wanted);
        let ghost start = job;
        proof {
            assert(job::states(start.files@).take(0) =~= Seq::<FileState>::empty());
        }
        let mut job = job;
        job.phase = phase;
        PhaseRun {
            job,
            wanted,
            next: 0,
            busy: false,
            done: 0,
            pending,
            start: Ghost(start),
            outcome,
        }
    }

    /// Goes on to the next file in the wanted state, if there is one.
    pub fn advance(&mut self) -> (found: bool)
        requires
            old(self).wf(),
            !old(self).is_busy(),
        ensures
            final(self).wf(),
            final(self).same_pass(*old(self)),
            final(self).treated() == old(self).treated(),
            final(self).now() == old(self).now(),
            final(self).is_busy() == found,
            old(self).at() <= final(self).at(),
            forall|k: int|
                old(self).at() <= k < final(self).at() ==> (
                #[trigger] final(self).begun().files@[k]).state != final(self).wants(),
            found ==> {
                &&& final(self).at() < final(self).now().len()
                &&& final(self).now()[final(self).at()].state == final(self).wants()
                &&& final(self).now()[final(self).at()] == final(self).begun().files@[final(self).at()]
            },
            !found ==> final(self).at() == final(self).now().len(),
    {
        let ghost entry = *self;
        while self.next < self.job.files.len()
            invariant
                self.wf(),
                !self.is_busy(),
                self.same_pass(entry),
                self.treated() == entry.treated(),
                self.now() == entry.now(),
                entry.at() <= self.at(),
                forall|k: int|
                    entry.at() <= k < self.at() ==> (#[trigger] self.begun().files@[k]).state
                        != self.wants(),
                entry == *old(self),
            decreases self.job.files@.len() - self.next,
        {
            if self.job.files[self.next].state == self.wanted {
                self.busy = true;
                return true;
            }
            proof {
                let all = job::states(self.start@.files@);
                assert(all.take(self.next + 1).drop_last() =~= all.take(self.next as int));
                assert(all.take(self.next + 1).last() == self.start@.files@[self.next as int].state);
            }
            self.next = self.next + 1;
        }
        false
    }

    /// The file that is being treated.
    pub fn current(&self) -> (r: &PlannedFile)
        requires
            self.wf(),
            self.is_busy(),
        ensures
            *r == self.now()[self.at()],
            0 <= self.at() < self.now().len(),
    {
        &self.job.files[self.next]
    }

    /// Changes the file that is being treated.
    pub fn update(&mut self, file: PlannedFile)
        requires
            old(self).wf(),
            old(self).is_busy(),
        ensures
            final(self).wf(),
            final(self).same_pass(*old(self)),
            final(self).treated() == old(self).treated(),
            final(self).at() == old(self).at(),
            final(self).is_busy(),
            final(self).now() == old(self).now().update(old(self).at(), file),
    {
        self.job.files.set(self.next, file);
    }

    /// Finishes the file that is being treated.
    pub fn settle(&mut self, file: PlannedFile)
        requires
            old(self).wf(),
            old(self).is_busy(),
            (old(self).allows())(old(self).begun().files@[old(self).at()], file),
        ensures
            final(self).wf(),
            final(self).same_pass(*old(self)),
            final(self).treated() == old(self).treated() + 1,
            final(self).at() == old(self).at() + 1,
            !final(self).is_busy(),
            final(self).now() == old(self).now().update(old(self).at(), file),
    {
        let count: usize = self.job.files.len();
        self.job.files.set(self.next, file);
        proof {
            let all = job::states(self.start@.files@);
            assert(self.next < count);
            assert(all.take(self.next + 1).drop_last() =~= all.take(self.next as int));
            assert(all.take(self.next + 1).last() == self.start@.files@[self.next as int].state);
            job::lemma_count_bound(all.take(self.next as int), self.wanted);
        }
        self.busy = false;
        self.done = self.done + 1;
        self.next = self.next + 1;
    }

    /// How many files have been treated.
    pub fn files_done(&self) -> (n: usize)
        requires
            self.wf(),
        ensures
            n == self.treated(),
    {
        self.done
    }

    /// How many files there are to treat.
    pub fn files_total(&self) -> (n: usize)
        requires
            self.wf(),
        ensures
            n == job::count_state(job::states(self.begun().files@), self.wants()),
    {
        self.pending
    }

    /// The job as it is now.
    pub fn job(&self) -> (r: &ImportJob)
        ensures
            r.files@ == self.now(),
            r.phase == self.phase(),
            self.wf() ==> same_job(*r, self.begun()),
    {
        &self.job
    }

    /// Ends the pass.
    pub fn finish(self, phase: Phase) -> (r: ImportJob)
        requires
            self.wf(),
            !self.is_busy(),
            self.at() == self.now().len(),
        ensures
            r.phase == phase,
            same_job(r, self.begun()),
            r.files@ == self.now(),
            passed(self.begun().files@, r.files@, self.wants(), self.allows()),
    {
        let mut job = self.job;
        job.phase = phase;
        job
    }
}

} // verus!
