//! The course of one update of the audio index.
//!
//! An update scans the registered directories and starts one upsert for
//! each audio file it finds, with the embedder's worker running beside
//! them. When the last upsert is done the worker is told to stop; when it
//! has left, the vector index is brought up to the catalog. A file that
//! cannot be ingested is counted and reported and does not fail the
//! update. One update runs at a time: a flag is set while it runs and is
//! cleared when it ends, however it ends, so that the next one may begin.

use vstd::prelude::*;

verus! {

/// Why an update did not run to its end.
#[derive(Debug)]
pub enum UpdateError {
    /// Another update is under way.
    IndexingAlreadyInProgress,
    /// The registered directories could not be read from the catalog; the
    /// text is the store's report.
    StorageError(String),
    /// The embedder's worker failed; the text is its report.
    EmbedderFailed(String),
    /// The vector index could not be brought up to the catalog; the text
    /// is the report.
    ResyncFailed(String),
}

/// Where an update stands.
#[derive(Debug, Clone, Copy, PartialEq, Eq, Structural)]
pub enum RunPhase {
    /// The directories are being scanned for audio files.
    Scanning,
    /// Upserts are under way.
    Ingesting,
    /// All upserts are done and the worker has been told to stop.
    AwaitingWorker,
    /// The worker has left; the vector index is being brought up to date.
    Resyncing,
    /// The update is over.
    Finished,
}

/// One update of the audio index.
pub struct UpdateRun {
    phase: RunPhase,
    launched: usize,
    succeeded: usize,
    failures: Vec<String>,
}

impl UpdateRun {
    /// Where the update stands.
    pub closed spec fn phase(&self) -> RunPhase {
        self.phase
    }

    /// Number of upserts that were started.
    pub closed spec fn launched(&self) -> int {
        self.launched as int
    }

    /// Number of upserts that ended well.
    pub closed spec fn succeeded(&self) -> int {
        self.succeeded as int
    }

    /// The reports of the upserts that failed, in the order in which
    /// they ended.
    pub closed spec fn failures(&self) -> Seq<String> {
        self.failures@
    }

    /// Number of upserts that have ended.
    pub open spec fn finished(&self) -> int {
        self.succeeded() + self.failures().len()
    }

    /// No more upserts have ended than were started. While the
    /// directories are scanned none has been started, and the update is
    /// ingesting just as long as some are under way.
    pub open spec fn wf(&self) -> bool {
        &&& 0 <= self.succeeded()
        &&& self.finished() <= self.launched()
        &&& self.phase() == RunPhase::Scanning ==> self.launched() == 0
        &&& self.phase() == RunPhase::Ingesting <==> self.finished() < self.launched()
    }

    /// Where the update stands.
    pub fn current_phase(&self) -> (phase: RunPhase)
        ensures
            phase == self.phase(),
    {
        self.phase
    }

    /// Number of upserts that ended well.
    pub fn success_count(&self) -> (n: usize)
        ensures
            n == self.succeeded(),
    {
        self.succeeded
    }

    /// The reports of the upserts that failed.
    pub fn failure_reports(&self) -> (reports: &Vec<String>)
        ensures
            reports@ == self.failures(),
    {
        &self.failures
    }

    /// Number of upserts that are still under way.
    pub fn pending(&self) -> (n: usize)
        requires
            self.wf(),
        ensures
            n == self.launched() - self.finished(),
    {
        self.launched - self.succeeded - self.failures.len()
    }

    /// The scan could not read the registered directories from the
    /// catalog. The update is over and the flag is cleared.
    pub fn scan_failed(&mut self, is_indexing: &mut bool, report: String) -> (error: UpdateError)
        requires
            old(self).wf(),
            old(self).phase() == RunPhase::Scanning,
        ensures
            final(self).wf(),
            final(self).phase() == RunPhase::Finished,
            final(self).launched() == old(self).launched(),
            final(self).succeeded() == old(self).succeeded(),
            final(self).failures() == old(self).failures(),
            !*final(is_indexing),
            error == UpdateError::StorageError(report),
    {
        self.phase = RunPhase::Finished;
        *is_indexing = false;
        UpdateError::StorageError(report)
    }

    /// The scan found `candidates` audio files, and one upsert is started
    /// for each. Returns whether there is none: the embedder is then to be
    /// stopped at once.
    pub fn files_found(&mut self, candidates: usize) -> (stop_embedder: bool)
        requires
            old(self).wf(),
            old(self).phase() == RunPhase::Scanning,
        ensures
            final(self).wf(),
            final(self).launched() == candidates,
            final(self).succeeded() == 0,
            final(self).failures() == Seq::<String>::empty(),
            stop_embedder == (candidates == 0),
            final(self).phase() == if stop_embedder {
                RunPhase::AwaitingWorker
            } else {
                RunPhase::Ingesting
            },
    {
        self.launched = candidates;
        self.succeeded = 0;
        self.failures = Vec::new();
        if candidates == 0 {
            self.phase = RunPhase::AwaitingWorker;
            true
        } else {
            self.phase = RunPhase::Ingesting;
            false
        }
    }

    /// One upsert has ended. Its outcome is counted, and a failure is
    /// kept with its report. Returns whether this was the last upsert: the
    /// embedder is then to be stopped.
    pub fn upsert_finished(&mut self, outcome: Result<(), String>) -> (stop_embedder: bool)
        requires
            old(self).wf(),
            old(self).phase() == RunPhase::Ingesting,
        ensures
            final(self).wf(),
            final(self).launched() == old(self).launched(),
            match outcome {
                Ok(_) => {
                    &&& final(self).succeeded() == old(self).succeeded() + 1
                    &&& final(self).failures() == old(self).failures()
                },
                Err(report) => {
                    &&& final(self).succeeded() == old(self).succeeded()
                    &&& final(self).failures() == old(self).failures().push(report)
                },
            },
            stop_embedder == (final(self).finished() == final(self).launched()),
            final(self).phase() == if stop_embedder {
                RunPhase::AwaitingWorker
            } else {
                RunPhase::Ingesting
            },
    {
        match outcome {
            Ok(_) => {
                self.succeeded = self.succeeded + 1;
            },
            Err(report) => {
                self.failures.push(report);
            },
        }
        let done: bool = self.launched - self.succeeded == self.failures.len();
        if done {
            self.phase = RunPhase::AwaitingWorker;
        }
        done
    }

    /// The embedder's worker has left. Its failure ends the update and
    /// clears the flag; otherwise the vector index is to be brought up to
    /// the catalog next, and the flag stays as it is.
    pub fn worker_exited(&mut self, is_indexing: &mut bool, outcome: Result<(), String>) -> (next:
        Result<(), UpdateError>)
        requires
            old(self).wf(),
            old(self).phase() == RunPhase::AwaitingWorker,
        ensures
            final(self).wf(),
            final(self).launched() == old(self).launched(),
            final(self).succeeded() == old(self).succeeded(),
            final(self).failures() == old(self).failures(),
            match outcome {
                Ok(_) => {
                    &&& next is Ok
                    &&& final(self).phase() == RunPhase::Resyncing
                    &&& *final(is_indexing) == *old(is_indexing)
                },
                Err(report) => {
                    &&& next == Err::<(), _>(UpdateError::EmbedderFailed(report))
                    &&& final(self).phase() == RunPhase::Finished
                    &&& !*final(is_indexing)
                },
            },
    {
        match outcome {
            Ok(_) => {
                self.phase = RunPhase::Resyncing;
                Ok(())
            },
            Err(report) => {
                self.phase = RunPhase::Finished;
                *is_indexing = false;
                Err(UpdateError::EmbedderFailed(report))
            },
        }
    }

    /// The vector index has been brought up to the catalog, or that has
    /// failed. Either way the update is over, the flag is cleared and the
    /// next update may begin; a failure fails this one.
    pub fn resync_finished(&mut self, is_indexing: &mut bool, outcome: Result<(), String>) -> (done:
        Result<bool, UpdateError>)
        requires
            old(self).wf(),
            old(self).phase() == RunPhase::Resyncing,
        ensures
            final(self).wf(),
            final(self).phase() == RunPhase::Finished,
            final(self).launched() == old(self).launched(),
            final(self).succeeded() == old(self).succeeded(),
            final(self).failures() == old(self).failures(),
            !*final(is_indexing),
            done == match outcome {
                Ok(_) => Ok::<bool, UpdateError>(true),
                Err(report) => Err::<bool, _>(UpdateError::ResyncFailed(report)),
            },
    {
        self.phase = RunPhase::Finished;
        *is_indexing = false;
        match outcome {
            Ok(_) => Ok(true),
            Err(report) => Err(UpdateError::ResyncFailed(report)),
        }
    }
}

/// Begins an update, unless one is under way. `is_indexing` is the flag
/// that tells whether one is; it is set for the time of the update.
pub fn update_audio_index(is_indexing: &mut bool) -> (begun: Result<UpdateRun, UpdateError>)
    ensures
        *final(is_indexing),
        begun is Ok <==> !*old(is_indexing),
        begun is Err ==> begun matches Err(UpdateError::IndexingAlreadyInProgress),
        begun matches Ok(run) ==> {
            &&& run.wf()
            &&& run.phase() == RunPhase::Scanning
            &&& run.launched() == 0
            &&& run.succeeded() == 0
            &&& run.failures() == Seq::<String>::empty()
        },
{
    if *is_indexing {
        return Err(UpdateError::IndexingAlreadyInProgress);
    }
    *is_indexing = true;
    Ok(UpdateRun { phase: RunPhase::Scanning, launched: 0, succeeded: 0, failures: Vec::new() })
}

} // verus!
