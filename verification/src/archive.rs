//! The archive writer: one cohort taken from its source files to a
//! finished archive, as a state machine whose file operations the caller
//! performs.
//!
//! The machine hands out one [`ArchiveAction`] at a time and is told how it
//! went. It asks for a source file to be removed only once the archive has
//! been finalized, and for the archive to be removed whenever writing or
//! finalizing fails.

use crate::classify::eligible;
use crate::classify::ext_log;
use crate::classify::ext_txt;
use crate::classify::ext_zip;
use crate::cohort::build_cohorts;
use crate::cohort::cohort_views;
use crate::cohort::cohorts_of;
use crate::cohort::Cohort;
use crate::cohort::CohortView;
use crate::namer::archive_name;
use crate::namer::get_new_zip_path;
use crate::namer::is_first_free;
use crate::namer::lemma_archive_name_extension;
use crate::namer::ArchivePath;
use crate::namer::PathView;
use crate::record::FileRecord;
use crate::text::texts_of;
use vstd::prelude::*;
use vstd::string::StringExecFns;

verus! {

/// Why a cohort was not archived.
#[derive(Clone, Copy, Debug, PartialEq, Eq, Structural)]
pub enum ArchiveError {
    /// The archive file could not be created under its name: the name was
    /// taken in the meantime, or the directory refused it.
    NameCollision,
    /// An entry could not be written.
    WriteFailed,
    /// The archive could not be finalized.
    FinalizeFailed,
}

/// Where a job stands.
#[derive(Clone, Copy, Debug, PartialEq, Eq, Structural)]
pub enum ArchivePhase {
    /// Nothing has been done; the archive has no name yet.
    Pending,
    /// The archive file is being created, exclusively.
    Creating,
    /// The member at `progress` is being written into the archive.
    Writing,
    /// The archive is being finalized.
    Finalizing,
    /// The archive is finalized; its modification time is being set.
    Stamping,
    /// The archive is finalized; the source at `progress` is being removed.
    RemovingSources,
    /// Writing or finalizing failed; the partial archive is being removed.
    Failed(ArchiveError),
    /// Done: the archive stands and the sources were dealt with.
    SourcesRemoved,
    /// Done without an archive: nothing of it is left and no source was
    /// touched.
    Cleaned(ArchiveError),
}

/// The file operation that a job waits for.
#[derive(Clone, Debug, PartialEq, Eq)]
pub enum ArchiveAction {
    /// List the names in `directory` and hand them to `begin`.
    ListDirectory { directory: String },
    /// Create the file at `path`, failing if it exists.
    CreateExclusive { path: ArchivePath },
    /// Copy the file at `source` into the archive as the entry `entry_name`.
    WriteEntry { entry_name: String, source: String },
    /// Write the archive's central structure and close it.
    Finalize,
    /// Set the modification time of the file at `path` to `secs` seconds
    /// after the Unix epoch.
    SetModified { path: ArchivePath, secs: i64 },
    /// Remove the source file at `source`.
    RemoveSource { source: String },
    /// Remove the partial archive at `path`.
    RemoveArchive { path: ArchivePath },
    /// Nothing is left to do.
    Stop,
}

/// An action as plain values.
pub enum ActionView {
    ListDirectory { directory: Seq<char> },
    CreateExclusive { path: PathView },
    WriteEntry { entry_name: Seq<char>, source: Seq<char> },
    Finalize,
    SetModified { path: PathView, secs: i64 },
    RemoveSource { source: Seq<char> },
    RemoveArchive { path: PathView },
    Stop,
}

impl View for ArchiveAction {
    type V = ActionView;

    open spec fn view(&self) -> ActionView {
        match self {
            ArchiveAction::ListDirectory { directory } => ActionView::ListDirectory {
                directory: directory@,
            },
            ArchiveAction::CreateExclusive { path } => ActionView::CreateExclusive { path: path@ },
            ArchiveAction::WriteEntry { entry_name, source } => ActionView::WriteEntry {
                entry_name: entry_name@,
                source: source@,
            },
            ArchiveAction::Finalize => ActionView::Finalize,
            ArchiveAction::SetModified { path, secs } => ActionView::SetModified {
                path: path@,
                secs: *secs,
            },
            ArchiveAction::RemoveSource { source } => ActionView::RemoveSource { source: source@ },
            ArchiveAction::RemoveArchive { path } => ActionView::RemoveArchive { path: path@ },
            ArchiveAction::Stop => ActionView::Stop,
        }
    }
}

/// The archiving of one cohort. The archive is named when the job begins;
/// `progress` counts the entries written, or the sources dealt with. A job
/// is made by [`ArchiveJob::new`] and changed by `begin` and `advance`
/// only, so it is always one that the machine can be in.
#[derive(Debug, PartialEq, Eq)]
pub struct ArchiveJob {
    cohort: Cohort,
    search_token: String,
    phase: ArchivePhase,
    archive: Option<ArchivePath>,
    progress: usize,
}

/// A job as plain values.
pub struct JobView {
    pub cohort: CohortView,
    pub search_token: Seq<char>,
    pub phase: ArchivePhase,
    pub archive: Option<PathView>,
    pub progress: nat,
}

impl View for ArchiveJob {
    type V = JobView;

    closed spec fn view(&self) -> JobView {
        JobView {
            cohort: self.cohort@,
            search_token: self.search_token@,
            phase: self.phase,
            archive: match self.archive {
                Some(path) => Some(path@),
                None => None,
            },
            progress: self.progress as nat,
        }
    }
}

impl JobView {
    /// Whether the job is one that the machine can be in: the archive is
    /// named, in the cohort's directory, from the moment the job has begun,
    /// and `progress` points at a member while members are handled.
    pub open spec fn wf(self) -> bool {
        &&& self.phase is Pending <==> self.archive is None
        &&& self.archive matches Some(path) ==> path.directory == self.cohort.parent_directory
        &&& (self.phase is Writing || self.phase is RemovingSources) ==> self.progress
            < self.cohort.members.len()
    }

    /// Whether the archive has been finalized: the commit point is passed.
    pub open spec fn finalized(self) -> bool {
        self.phase is Stamping || self.phase is RemovingSources || self.phase is SourcesRemoved
    }

    /// Whether the job is over.
    pub open spec fn terminal(self) -> bool {
        self.phase is SourcesRemoved || self.phase is Cleaned
    }

    /// The number of members of the job's cohort.
    pub open spec fn size(self) -> int {
        self.cohort.members.len() as int
    }

    /// The job with another phase and progress.
    pub open spec fn at(self, phase: ArchivePhase, progress: nat) -> JobView {
        JobView { phase, progress, ..self }
    }
}

/// The job that stands for a cohort before anything is done.
pub open spec fn pending_job(cohort: CohortView, token: Seq<char>) -> JobView {
    JobView {
        cohort,
        search_token: token,
        phase: ArchivePhase::Pending,
        archive: None,
        progress: 0,
    }
}

/// The action that a job waits for.
pub open spec fn awaited(job: JobView) -> ActionView {
    match job.phase {
        ArchivePhase::Pending => ActionView::ListDirectory {
            directory: job.cohort.parent_directory,
        },
        ArchivePhase::Creating => ActionView::CreateExclusive { path: job.archive.unwrap() },
        ArchivePhase::Writing => ActionView::WriteEntry {
            entry_name: job.cohort.members[job.progress as int].file_name,
            source: job.cohort.members[job.progress as int].path,
        },
        ArchivePhase::Finalizing => ActionView::Finalize,
        ArchivePhase::Stamping => ActionView::SetModified {
            path: job.archive.unwrap(),
            secs: job.cohort.earliest.at.secs,
        },
        ArchivePhase::RemovingSources => ActionView::RemoveSource {
            source: job.cohort.members[job.progress as int].path,
        },
        ArchivePhase::Failed(_) => ActionView::RemoveArchive { path: job.archive.unwrap() },
        ArchivePhase::SourcesRemoved => ActionView::Stop,
        ArchivePhase::Cleaned(_) => ActionView::Stop,
    }
}

/// The job after its awaited action succeeded or failed.
///
/// A failure to create the archive ends the job with nothing to clean. A
/// failure to write or finalize leads to the removal of the partial
/// archive. Once the archive is finalized nothing stops the job: the
/// modification time is set and every source is asked to be removed,
/// whether or not the step before succeeded.
pub open spec fn advanced(job: JobView, succeeded: bool) -> JobView {
    let members = job.cohort.members.len();
    match job.phase {
        ArchivePhase::Pending => job,
        ArchivePhase::Creating => if !succeeded {
            job.at(ArchivePhase::Cleaned(ArchiveError::NameCollision), 0)
        } else if members > 0 {
            job.at(ArchivePhase::Writing, 0)
        } else {
            job.at(ArchivePhase::Finalizing, 0)
        },
        ArchivePhase::Writing => if !succeeded {
            job.at(ArchivePhase::Failed(ArchiveError::WriteFailed), job.progress)
        } else if job.progress + 1 < members {
            job.at(ArchivePhase::Writing, job.progress + 1)
        } else {
            job.at(ArchivePhase::Finalizing, members)
        },
        ArchivePhase::Finalizing => if !succeeded {
            job.at(ArchivePhase::Failed(ArchiveError::FinalizeFailed), job.progress)
        } else {
            job.at(ArchivePhase::Stamping, 0)
        },
        ArchivePhase::Stamping => if members > 0 {
            job.at(ArchivePhase::RemovingSources, 0)
        } else {
            job.at(ArchivePhase::SourcesRemoved, 0)
        },
        ArchivePhase::RemovingSources => if job.progress + 1 < members {
            job.at(ArchivePhase::RemovingSources, job.progress + 1)
        } else {
            job.at(ArchivePhase::SourcesRemoved, members)
        },
        ArchivePhase::Failed(error) => job.at(ArchivePhase::Cleaned(error), job.progress),
        ArchivePhase::SourcesRemoved => job,
        ArchivePhase::Cleaned(_) => job,
    }
}

/// The job after it was named against `existing`, the names that the
/// cohort's directory holds.
pub open spec fn begun(job: JobView, next: JobView, existing: Seq<Seq<char>>) -> bool {
    if job.phase is Pending {
        &&& next.cohort == job.cohort
        &&& next.search_token == job.search_token
        &&& next.phase == ArchivePhase::Creating
        &&& next.progress == 0
        &&& next.archive matches Some(path)
        &&& path.directory == job.cohort.parent_directory
        &&& exists|n: nat|
            is_first_free(job.cohort.date_key, job.search_token, ext_zip(), existing, n)
                && path.file_name == archive_name(job.cohort.date_key, job.search_token, n)
    } else {
        next == job
    }
}

impl ArchiveJob {
    #[verifier::type_invariant]
    spec fn well_formed(self) -> bool {
        self@.wf()
    }

    /// A job for `cohort`, with nothing done yet.
    pub fn new(cohort: Cohort, search_token: &str) -> (job: ArchiveJob)
        ensures
            job@ == pending_job(cohort@, search_token@),
    {
        ArchiveJob {
            cohort,
            search_token: String::from_str(search_token),
            phase: ArchivePhase::Pending,
            archive: None,
            progress: 0,
        }
    }

    /// The cohort that the job archives.
    pub fn cohort(&self) -> (cohort: &Cohort)
        ensures
            cohort@ == self@.cohort,
    {
        &self.cohort
    }

    /// The search token that the archive's name carries.
    pub fn search_token(&self) -> (token: &str)
        ensures
            token@ == self@.search_token,
    {
        self.search_token.as_str()
    }

    /// Where the job stands.
    pub fn phase(&self) -> (phase: ArchivePhase)
        ensures
            phase == self@.phase,
    {
        self.phase
    }

    /// The archive's path, once the job has begun.
    pub fn archive(&self) -> (archive: Option<ArchivePath>)
        ensures
            match archive {
                Some(path) => self@.archive == Some(path@),
                None => self@.archive is None,
            },
    {
        match &self.archive {
            Some(path) => Some(path.duplicate()),
            None => None,
        }
    }

    /// The entries written so far, or the sources dealt with.
    pub fn progress(&self) -> (progress: usize)
        ensures
            progress == self@.progress,
    {
        self.progress
    }

    /// The action that the job waits for.
    pub fn action(&self) -> (action: ArchiveAction)
        ensures
            action@ == awaited(self@),
    {
        proof {
            use_type_invariant(self);
        }
        match self.phase {
            ArchivePhase::Pending => ArchiveAction::ListDirectory {
                directory: self.cohort.parent_directory.clone(),
            },
            ArchivePhase::Creating => match &self.archive {
                Some(path) => ArchiveAction::CreateExclusive { path: path.duplicate() },
                None => ArchiveAction::Stop,
            },
            ArchivePhase::Writing => {
                let member = &self.cohort.member_files[self.progress];
                ArchiveAction::WriteEntry {
                    entry_name: member.file_name.clone(),
                    source: member.path.clone(),
                }
            },
            ArchivePhase::Finalizing => ArchiveAction::Finalize,
            ArchivePhase::Stamping => match &self.archive {
                Some(path) => ArchiveAction::SetModified {
                    path: path.duplicate(),
                    secs: self.cohort.earliest_creation_time.at.secs,
                },
                None => ArchiveAction::Stop,
            },
            ArchivePhase::RemovingSources => ArchiveAction::RemoveSource {
                source: self.cohort.member_files[self.progress].path.clone(),
            },
            ArchivePhase::Failed(_) => match &self.archive {
                Some(path) => ArchiveAction::RemoveArchive { path: path.duplicate() },
                None => ArchiveAction::Stop,
            },
            ArchivePhase::SourcesRemoved => ArchiveAction::Stop,
            ArchivePhase::Cleaned(_) => ArchiveAction::Stop,
        }
    }

    /// Names the archive of a pending job against `existing`, the names
    /// that the cohort's directory holds, and asks for its creation. A job
    /// that has begun already is left as it is.
    pub fn begin(self, existing: &Vec<String>) -> (next: (ArchiveJob, ArchiveAction))
        ensures
            begun(self@, next.0@, texts_of(existing@)),
            next.0@.wf(),
            next.1@ == awaited(next.0@),
    {
        proof {
            use_type_invariant(&self);
        }
        match self.phase {
            ArchivePhase::Pending => {
                let path = get_new_zip_path(
                    self.cohort.date_key.as_str(),
                    self.cohort.parent_directory.as_str(),
                    self.search_token.as_str(),
                    existing,
                );
                let action = ArchiveAction::CreateExclusive { path: path.duplicate() };
                let ghost before = self@;
                let ghost named = path@;
                let job = ArchiveJob {
                    cohort: self.cohort,
                    search_token: self.search_token,
                    phase: ArchivePhase::Creating,
                    archive: Some(path),
                    progress: 0,
                };
                proof {
                    let n = choose|n: nat|
                        is_first_free(
                            before.cohort.date_key,
                            before.search_token,
                            ext_zip(),
                            texts_of(existing@),
                            n,
                        ) && named.file_name == archive_name(
                            before.cohort.date_key,
                            before.search_token,
                            n,
                        );
                    assert(is_first_free(
                        before.cohort.date_key,
                        before.search_token,
                        ext_zip(),
                        texts_of(existing@),
                        n,
                    ));
                }
                (job, action)
            },
            _ => {
                let action = self.action();
                (self, action)
            },
        }
    }

    /// Takes the job one step on: `succeeded` tells how the awaited action
    /// went. Returns the job after it and the action it waits for next.
    pub fn advance(self, succeeded: bool) -> (next: (ArchiveJob, ArchiveAction))
        ensures
            next.0@ == advanced(self@, succeeded),
            next.0@.wf(),
            next.1@ == awaited(next.0@),
    {
        proof {
            use_type_invariant(&self);
        }
        let members = self.cohort.member_files.len();
        let (phase, progress) = match self.phase {
            ArchivePhase::Pending => (self.phase, self.progress),
            ArchivePhase::Creating => if !succeeded {
                (ArchivePhase::Cleaned(ArchiveError::NameCollision), 0)
            } else if members > 0 {
                (ArchivePhase::Writing, 0)
            } else {
                (ArchivePhase::Finalizing, 0)
            },
            ArchivePhase::Writing => if !succeeded {
                (ArchivePhase::Failed(ArchiveError::WriteFailed), self.progress)
            } else if self.progress + 1 < members {
                (ArchivePhase::Writing, self.progress + 1)
            } else {
                (ArchivePhase::Finalizing, members)
            },
            ArchivePhase::Finalizing => if !succeeded {
                (ArchivePhase::Failed(ArchiveError::FinalizeFailed), self.progress)
            } else {
                (ArchivePhase::Stamping, 0)
            },
            ArchivePhase::Stamping => if members > 0 {
                (ArchivePhase::RemovingSources, 0)
            } else {
                (ArchivePhase::SourcesRemoved, 0)
            },
            ArchivePhase::RemovingSources => if self.progress + 1 < members {
                (ArchivePhase::RemovingSources, self.progress + 1)
            } else {
                (ArchivePhase::SourcesRemoved, members)
            },
            ArchivePhase::Failed(error) => (ArchivePhase::Cleaned(error), self.progress),
            ArchivePhase::SourcesRemoved => (self.phase, self.progress),
            ArchivePhase::Cleaned(_) => (self.phase, self.progress),
        };
        let job = ArchiveJob {
            cohort: self.cohort,
            search_token: self.search_token,
            phase,
            archive: self.archive,
            progress,
        };
        let action = job.action();
        (job, action)
    }

    /// How the job ended: the archive's path where it stands, the error
    /// where it does not, `None` while the job is not over.
    pub fn outcome(&self) -> (result: Option<Result<ArchivePath, ArchiveError>>)
        ensures
            match result {
                None => !self@.terminal(),
                Some(Ok(path)) => self@.phase is SourcesRemoved && self@.archive == Some(path@),
                Some(Err(error)) => self@.phase == ArchivePhase::Cleaned(error),
            },
    {
        proof {
            use_type_invariant(self);
        }
        match self.phase {
            ArchivePhase::SourcesRemoved => match &self.archive {
                Some(path) => Some(Ok(path.duplicate())),
                None => None,
            },
            ArchivePhase::Cleaned(error) => Some(Err(error)),
            _ => None,
        }
    }
}

/// The job after the outcomes of its first actions, one after the other.
pub open spec fn run(job: JobView, outcomes: Seq<bool>) -> JobView
    decreases outcomes.len(),
{
    if outcomes.len() == 0 {
        job
    } else {
        advanced(run(job, outcomes.drop_last()), outcomes.last())
    }
}

/// The job after the first `k` of `outcomes`.
pub open spec fn state_at(job: JobView, outcomes: Seq<bool>, k: int) -> JobView {
    run(job, outcomes.take(k))
}

/// Whether writing or finalizing has failed: the job is removing the
/// partial archive, or has done so.
pub open spec fn abandoned(job: JobView) -> bool {
    job.phase is Failed || job.phase is Cleaned
}

/// One step of a run: the state after `k + 1` outcomes is the state after
/// `k` of them, advanced by the next.
pub proof fn lemma_run_step(job: JobView, outcomes: Seq<bool>, k: int)
    requires
        0 <= k < outcomes.len(),
    ensures
        state_at(job, outcomes, k + 1) == advanced(state_at(job, outcomes, k), outcomes[k]),
        state_at(job, outcomes, 0) == job,
        state_at(job, outcomes, outcomes.len() as int) == run(job, outcomes),
{
    assert(outcomes.take(k + 1).drop_last() =~= outcomes.take(k));
    assert(outcomes.take(outcomes.len() as int) =~= outcomes);
}

/// A step keeps a job well formed, keeps its cohort and archive, never
/// leaves the finalized phases and never leaves the abandoned ones.
pub proof fn lemma_advanced_keeps(job: JobView, succeeded: bool)
    requires
        job.wf(),
    ensures
        advanced(job, succeeded).wf(),
        advanced(job, succeeded).cohort == job.cohort,
        advanced(job, succeeded).archive == job.archive,
        job.finalized() ==> advanced(job, succeeded).finalized(),
        abandoned(job) ==> abandoned(advanced(job, succeeded)),
        advanced(job, succeeded).finalized() ==> job.finalized() || (job.phase is Finalizing
            && succeeded),
{
}

/// What a step keeps, it keeps along a run.
pub proof fn lemma_run_keeps(job: JobView, outcomes: Seq<bool>)
    requires
        job.wf(),
    ensures
        run(job, outcomes).wf(),
        run(job, outcomes).cohort == job.cohort,
        run(job, outcomes).archive == job.archive,
        job.finalized() ==> run(job, outcomes).finalized(),
        abandoned(job) ==> abandoned(run(job, outcomes)),
    decreases outcomes.len(),
{
    if outcomes.len() > 0 {
        lemma_run_keeps(job, outcomes.drop_last());
        lemma_advanced_keeps(run(job, outcomes.drop_last()), outcomes.last());
    }
}

/// Sources are removed only after the commit point. Whatever the outcomes
/// of its actions, a job that asks for a source file to be removed has
/// finalized its archive: at some earlier step it was finalizing, and that
/// step succeeded.
pub proof fn law_sources_removed_only_after_finalize(job: JobView, outcomes: Seq<bool>)
    requires
        job.wf(),
        !job.finalized(),
    ensures
        awaited(run(job, outcomes)) is RemoveSource ==> run(job, outcomes).finalized(),
        run(job, outcomes).finalized() ==> exists|f: int|
            0 <= f < outcomes.len() && (#[trigger] state_at(job, outcomes, f)).phase is Finalizing
                && outcomes[f],
    decreases outcomes.len(),
{
    if outcomes.len() > 0 {
        let front = outcomes.drop_last();
        let last = outcomes.len() - 1;
        law_sources_removed_only_after_finalize(job, front);
        lemma_run_keeps(job, front);
        lemma_advanced_keeps(run(job, front), outcomes.last());
        assert(outcomes.take(last) =~= front);
        if run(job, outcomes).finalized() {
            if run(job, front).finalized() {
                let f = choose|f: int|
                    0 <= f < front.len() && (#[trigger] state_at(job, front, f)).phase is Finalizing
                        && front[f];
                assert(front.take(f) =~= outcomes.take(f));
                assert(state_at(job, outcomes, f).phase is Finalizing);
            } else {
                assert(state_at(job, outcomes, last).phase is Finalizing);
            }
        }
    }
}

/// No source is lost when archiving fails. If the job was writing an entry
/// or finalizing at step `f` and that step failed, then it asks next for
/// the partial archive to be removed, is over one step later with the
/// error of the failed step, and at no step of the run, before or after,
/// does it ask for a source file to be removed.
pub proof fn law_failure_keeps_sources(job: JobView, outcomes: Seq<bool>, f: int)
    requires
        job.wf(),
        0 <= f < outcomes.len(),
        state_at(job, outcomes, f).phase is Writing || state_at(job, outcomes, f).phase
            is Finalizing,
        !outcomes[f],
    ensures
        awaited(state_at(job, outcomes, f + 1)) == (ActionView::RemoveArchive {
            path: job.archive.unwrap(),
        }),
        forall|k: int|
            f + 1 < k <= outcomes.len() ==> (#[trigger] state_at(job, outcomes, k)).phase
                == ArchivePhase::Cleaned(
                if state_at(job, outcomes, f).phase is Writing {
                    ArchiveError::WriteFailed
                } else {
                    ArchiveError::FinalizeFailed
                },
            ),
        forall|k: int|
            0 <= k <= outcomes.len() ==> !(awaited(#[trigger] state_at(job, outcomes, k))
                is RemoveSource),
{
    let error = if state_at(job, outcomes, f).phase is Writing {
        ArchiveError::WriteFailed
    } else {
        ArchiveError::FinalizeFailed
    };
    lemma_run_keeps(job, outcomes.take(f));
    lemma_run_step(job, outcomes, f);
    assert(state_at(job, outcomes, f + 1).phase == ArchivePhase::Failed(error));
    assert forall|k: int| f + 1 < k <= outcomes.len() implies (#[trigger] state_at(
        job,
        outcomes,
        k,
    )).phase == ArchivePhase::Cleaned(error) by {
        lemma_cleaned_after_failure(job, outcomes, f, error, k);
    }
    assert forall|k: int| 0 <= k <= outcomes.len() implies !(awaited(
        #[trigger] state_at(job, outcomes, k),
    ) is RemoveSource) by {
        if k <= f {
            lemma_run_keeps(job, outcomes.take(k));
            let rest = outcomes.subrange(k, f);
            lemma_run_split(job, outcomes.take(k), rest);
            assert(outcomes.take(k) + rest =~= outcomes.take(f));
            lemma_run_keeps(state_at(job, outcomes, k), rest);
        } else if k > f + 1 {
            lemma_cleaned_after_failure(job, outcomes, f, error, k);
        }
    }
}

/// A run over two stretches of outcomes is the run over the second from
/// where the first has led.
pub proof fn lemma_run_split(job: JobView, first: Seq<bool>, second: Seq<bool>)
    ensures
        run(job, first + second) == run(run(job, first), second),
    decreases second.len(),
{
    if second.len() == 0 {
        assert(first + second =~= first);
    } else {
        lemma_run_split(job, first, second.drop_last());
        assert((first + second).drop_last() =~= first + second.drop_last());
    }
}

proof fn lemma_cleaned_after_failure(
    job: JobView,
    outcomes: Seq<bool>,
    f: int,
    error: ArchiveError,
    k: int,
)
    requires
        0 <= f < outcomes.len(),
        state_at(job, outcomes, f + 1).phase == ArchivePhase::Failed(error),
        f + 1 < k <= outcomes.len(),
    ensures
        state_at(job, outcomes, k).phase == ArchivePhase::Cleaned(error),
    decreases k,
{
    lemma_run_step(job, outcomes, k - 1);
    if k > f + 2 {
        lemma_cleaned_after_failure(job, outcomes, f, error, k - 1);
    }
}

/// The course of a job whose archive can be written. Let the job have just
/// begun, with `n` members, and let creating the file, writing each entry
/// and finalizing succeed. Then the entries are written in member order,
/// each under its file name; after finalizing, the archive's modification
/// time is set to the second of the cohort's earliest creation instant;
/// then every source is asked to be removed, in member order, whether or
/// not the steps after finalizing succeed; and the job ends with its
/// sources removed.
pub proof fn law_successful_course(job: JobView, outcomes: Seq<bool>)
    requires
        job.wf(),
        job.phase is Creating,
        outcomes.len() == 2 * job.size() + 3,
        forall|k: int| 0 <= k <= job.size() + 1 ==> outcomes[k],
    ensures
        forall|i: int|
            0 <= i < job.size() ==> awaited(#[trigger] state_at(job, outcomes, 1 + i))
                == (ActionView::WriteEntry {
                entry_name: job.cohort.members[i].file_name,
                source: job.cohort.members[i].path,
            }),
        awaited(state_at(job, outcomes, job.size() + 1)) == ActionView::Finalize,
        awaited(state_at(job, outcomes, job.size() + 2)) == (ActionView::SetModified {
            path: job.archive.unwrap(),
            secs: job.cohort.earliest.at.secs,
        }),
        forall|i: int|
            0 <= i < job.size() ==> awaited(
                #[trigger] state_at(job, outcomes, job.size() + 3 + i),
            ) == (ActionView::RemoveSource { source: job.cohort.members[i].path }),
        run(job, outcomes).phase is SourcesRemoved,
{
    let n = job.size();
    assert forall|i: int| 0 <= i < n implies awaited(#[trigger] state_at(job, outcomes, 1 + i))
        == (ActionView::WriteEntry {
        entry_name: job.cohort.members[i].file_name,
        source: job.cohort.members[i].path,
    }) by {
        lemma_writing_course(job, outcomes, i);
    }
    lemma_finalizing_reached(job, outcomes);
    lemma_run_step(job, outcomes, n + 1);
    assert(state_at(job, outcomes, n + 2) == job.at(ArchivePhase::Stamping, 0));
    lemma_run_step(job, outcomes, n + 2);
    assert forall|i: int| 0 <= i < n implies awaited(
        #[trigger] state_at(job, outcomes, n + 3 + i),
    ) == (ActionView::RemoveSource { source: job.cohort.members[i].path }) by {
        lemma_removing_course(job, outcomes, i);
    }
    if n > 0 {
        lemma_removing_course(job, outcomes, n - 1);
        lemma_run_step(job, outcomes, 2 * n + 2);
    }
}

proof fn lemma_writing_course(job: JobView, outcomes: Seq<bool>, i: int)
    requires
        job.wf(),
        job.phase is Creating,
        outcomes.len() == 2 * job.size() + 3,
        forall|k: int| 0 <= k <= job.size() + 1 ==> outcomes[k],
        0 <= i < job.size(),
    ensures
        state_at(job, outcomes, 1 + i) == job.at(ArchivePhase::Writing, i as nat),
    decreases i,
{
    lemma_run_step(job, outcomes, i);
    if i > 0 {
        lemma_writing_course(job, outcomes, i - 1);
    }
}

proof fn lemma_finalizing_reached(job: JobView, outcomes: Seq<bool>)
    requires
        job.wf(),
        job.phase is Creating,
        outcomes.len() == 2 * job.size() + 3,
        forall|k: int| 0 <= k <= job.size() + 1 ==> outcomes[k],
    ensures
        state_at(job, outcomes, job.size() + 1).phase is Finalizing,
        state_at(job, outcomes, job.size() + 1).cohort == job.cohort,
        state_at(job, outcomes, job.size() + 1).archive == job.archive,
        state_at(job, outcomes, job.size() + 1).search_token == job.search_token,
{
    let n = job.size();
    lemma_run_step(job, outcomes, n);
    if n > 0 {
        lemma_writing_course(job, outcomes, n - 1);
    }
}

proof fn lemma_removing_course(job: JobView, outcomes: Seq<bool>, i: int)
    requires
        job.wf(),
        job.phase is Creating,
        outcomes.len() == 2 * job.size() + 3,
        forall|k: int| 0 <= k <= job.size() + 1 ==> outcomes[k],
        0 <= i < job.size(),
    ensures
        state_at(job, outcomes, job.size() + 3 + i) == job.at(
            ArchivePhase::RemovingSources,
            i as nat,
        ),
    decreases i,
{
    let n = job.size();
    lemma_run_step(job, outcomes, n + 2 + i);
    if i > 0 {
        lemma_removing_course(job, outcomes, i - 1);
    } else {
        lemma_finalizing_reached(job, outcomes);
        lemma_run_step(job, outcomes, n + 1);
    }
}

/// A finished archive is not archived again: a file that bears an archive
/// name is skipped by the classifier, whatever the token and the date. So
/// the archives of one pass are no cohort members of the next.
pub proof fn law_archives_are_not_archived(
    r: FileRecord,
    date: Seq<char>,
    label: Seq<char>,
    n: nat,
    token: Seq<char>,
    today: Seq<char>,
)
    requires
        r.file_name@ == archive_name(date, label, n),
    ensures
        !eligible(r, token, today),
{
    lemma_archive_name_extension(date, label, n);
    assert(ext_zip()[0] != ext_log()[0] && ext_zip()[0] != ext_txt()[0]);
}

/// The views of a sequence of jobs.
pub open spec fn job_views(jobs: Seq<ArchiveJob>) -> Seq<JobView> {
    Seq::new(jobs.len(), |j: int| jobs[j]@)
}

/// The jobs of a scan: a pending job for each of its cohorts.
pub open spec fn jobs_of(records: Seq<FileRecord>, token: Seq<char>, today: Seq<char>) -> Seq<
    JobView,
> {
    let cohorts = cohorts_of(records, token, today);
    Seq::new(cohorts.len(), |j: int| pending_job(cohorts[j], token))
}

/// Plans the archive pass over one scanned directory tree: groups the
/// eligible entries by creation date and returns one pending job for each
/// cohort. The caller drives each job with `begin` and `advance`,
/// performing the actions they ask for. `today` is the date key of the
/// current local date.
pub fn group_and_compress_files(records: &Vec<FileRecord>, search_string: &str, today: &str) -> (jobs:
    Vec<ArchiveJob>)
    ensures
        job_views(jobs@) == jobs_of(records@, search_string@, today@),
{
    let mut cohorts = build_cohorts(records, search_string, today);
    let ghost planned = cohort_views(cohorts@);
    let mut jobs: Vec<ArchiveJob> = Vec::new();
    let total = cohorts.len();
    let mut taken: usize = 0;
    while cohorts.len() > 0
        invariant
            planned == cohorts_of(records@, search_string@, today@),
            total == planned.len(),
            taken + cohorts.len() == total,
            jobs.len() == taken,
            forall|j: int| 0 <= j < cohorts.len() ==> (#[trigger] cohorts[j])@ == planned[taken + j],
            forall|j: int|
                0 <= j < jobs.len() ==> (#[trigger] jobs[j])@ == pending_job(
                    planned[j],
                    search_string@,
                ),
        decreases cohorts.len(),
    {
        let cohort = cohorts.remove(0);
        jobs.push(ArchiveJob::new(cohort, search_string));
        taken += 1;
    }
    assert(job_views(jobs@) =~= jobs_of(records@, search_string@, today@));
    jobs
}

} // verus!
