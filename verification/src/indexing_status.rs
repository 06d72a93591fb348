//! The indexing status that is shown to the user interface.
//!
//! A run moves the status from idle through started and pre-indexing to
//! indexing, and back to idle at its end. Every change of the status that
//! is to be shown comes out as an event that carries the new status; the
//! caller sends it on. Points in time are UTC, in milliseconds since the
//! Unix epoch.

use chrono::Utc;
use vstd::prelude::*;

verus! {

/// `Utc::now`, read through `DateTime::timestamp_millis`: the current
/// time in milliseconds since the Unix epoch. Nothing is claimed of it.
/// The call does not return where the system clock stands before the
/// epoch.
#[verifier::external_body]
fn utc_now() -> (now: i64) {
    Utc::now().timestamp_millis()
}

/// Progress of the first pass, in which every file is hashed and looked
/// up.
#[derive(Clone, Copy, Debug, PartialEq, Eq, Structural)]
pub struct PreIndexingProgress {
    pub started_preindexing: i64,
    pub preindexed: u32,
}

/// Progress of the second pass, in which new files are embedded.
#[derive(Clone, Copy, Debug, PartialEq, Eq, Structural)]
pub struct IndexingProgress {
    pub started_indexing: i64,
    pub newly_indexed: u32,
    pub total_to_index: u32,
}

/// Progress of a run.
#[derive(Clone, Copy, Debug, PartialEq, Eq, Structural)]
pub struct Progress {
    pub preindexing: PreIndexingProgress,
    pub indexing: Option<IndexingProgress>,
    pub total: u32,
}

/// The status of the index.
#[derive(Clone, Copy, Debug, PartialEq, Eq, Structural)]
pub enum Status {
    Started,
    InProgress(Progress),
    Idle,
}

/// The event that tells observers of a new status.
#[derive(Clone, Copy, Debug, PartialEq, Eq, Structural)]
pub struct IndexingStatusChanged(pub Status);

/// An operation that the current status does not allow.
#[derive(Clone, Copy, Debug, PartialEq, Eq, Structural)]
pub enum InvalidStatusTransition {
    /// A counter was moved, or indexing was started, while no run was in
    /// progress.
    NotInProgress,
    /// The indexing counter was moved before indexing had started.
    NotIndexing,
    /// The status is already past the phase that was to be entered. Only
    /// `set_idle` goes back.
    PastThatPhase,
}

/// How far a run has come: 0 idle, 1 started, 2 pre-indexing, 3 indexing.
pub open spec fn phase(status: Status) -> int {
    match status {
        Status::Idle => 0,
        Status::Started => 1,
        Status::InProgress(progress) => if progress.indexing is Some {
            3
        } else {
            2
        },
    }
}

/// The status at the start of pre-indexing.
pub open spec fn preindexing_status(total: u32, now: i64) -> Status {
    Status::InProgress(
        Progress {
            preindexing: PreIndexingProgress { started_preindexing: now, preindexed: 0 },
            indexing: None,
            total,
        },
    )
}

/// The status at the start of indexing.
pub open spec fn indexing_status(progress: Progress, total_to_index: u32, now: i64)
    -> Status {
    Status::InProgress(
        Progress {
            preindexing: progress.preindexing,
            indexing: Some(
                IndexingProgress { started_indexing: now, newly_indexed: 0, total_to_index },
            ),
            total: progress.total,
        },
    )
}

/// The status after one more file was pre-indexed.
pub open spec fn after_preindexed(progress: Progress) -> Status {
    Status::InProgress(
        Progress {
            preindexing: PreIndexingProgress {
                started_preindexing: progress.preindexing.started_preindexing,
                preindexed: (progress.preindexing.preindexed + 1) as u32,
            },
            indexing: progress.indexing,
            total: progress.total,
        },
    )
}

/// The status after one more file was indexed.
pub open spec fn after_indexed(progress: Progress) -> Status {
    Status::InProgress(
        Progress {
            preindexing: progress.preindexing,
            indexing: Some(
                IndexingProgress {
                    started_indexing: progress.indexing->0.started_indexing,
                    newly_indexed: (progress.indexing->0.newly_indexed + 1) as u32,
                    total_to_index: progress.indexing->0.total_to_index,
                },
            ),
            total: progress.total,
        },
    )
}

/// A counter that has reached `count` of `total` is on a boundary of one
/// hundredth of the total: it is a multiple of the hundredth, rounded
/// down to whole files. With fewer than a hundred files in all each file
/// is more than a hundredth, and every count is on a boundary.
pub open spec fn on_percent_boundary(count: int, total: int) -> bool {
    total / 100 == 0 || count % (total / 100) == 0
}

/// A counter that stands at `count` has room for one more.
pub open spec fn can_count(count: int) -> bool {
    count < u32::MAX
}

/// The pre-indexing counter has room, if a run is in progress.
pub open spec fn can_increment_preindexed(status: Status) -> bool {
    status matches Status::InProgress(progress) ==> can_count(
        progress.preindexing.preindexed as int,
    )
}

/// The indexing counter has room, if indexing is under way.
pub open spec fn can_increment_indexed(status: Status) -> bool {
    status matches Status::InProgress(progress) ==> (progress.indexing matches Some(indexing)
        ==> can_count(indexing.newly_indexed as int))
}

/// Holder of the indexing status.
pub struct IndexingStatus {
    status: Status,
}

impl IndexingStatus {
    /// The current status.
    pub closed spec fn status(&self) -> Status {
        self.status
    }

    /// An idle index.
    pub fn new() -> (holder: Self)
        ensures
            holder.status() == Status::Idle,
    {
        IndexingStatus { status: Status::Idle }
    }

    /// A run has been asked for. Allowed while idle or started.
    pub fn set_started(&mut self) -> (event: Result<IndexingStatusChanged, InvalidStatusTransition>)
        ensures
            phase(old(self).status()) <= 1 ==> final(self).status() == Status::Started && event
                == Ok::<_, InvalidStatusTransition>(IndexingStatusChanged(Status::Started)),
            phase(old(self).status()) > 1 ==> final(self).status() == old(self).status() && event
                == Err::<IndexingStatusChanged, _>(InvalidStatusTransition::PastThatPhase),
    {
        match self.status {
            Status::InProgress(_) => Err(InvalidStatusTransition::PastThatPhase),
            _ => {
                self.status = Status::Started;
                Ok(IndexingStatusChanged(self.status))
            },
        }
    }

    /// Pre-indexing of `total` files began at `now`. Allowed until
    /// indexing has begun.
    pub fn set_preindexing_started_at(&mut self, total: u32, now: i64) -> (event: Result<
        IndexingStatusChanged,
        InvalidStatusTransition,
    >)
        ensures
            phase(old(self).status()) <= 2 ==> final(self).status() == preindexing_status(
                total,
                now,
            ) && event == Ok::<_, InvalidStatusTransition>(
                IndexingStatusChanged(final(self).status()),
            ),
            phase(old(self).status()) > 2 ==> final(self).status() == old(self).status() && event
                == Err::<IndexingStatusChanged, _>(InvalidStatusTransition::PastThatPhase),
    {
        let past = match self.status {
            Status::InProgress(progress) => progress.indexing.is_some(),
            _ => false,
        };
        if past {
            return Err(InvalidStatusTransition::PastThatPhase);
        }
        self.status = Status::InProgress(
            Progress {
                total,
                indexing: None,
                preindexing: PreIndexingProgress { started_preindexing: now, preindexed: 0 },
            },
        );
        Ok(IndexingStatusChanged(self.status))
    }

    /// Pre-indexing of `total` files begins now.
    pub fn set_preindexing_started(&mut self, total: u32) -> (event: Result<
        IndexingStatusChanged,
        InvalidStatusTransition,
    >)
        ensures
            phase(old(self).status()) <= 2 ==> (exists|now: i64|
                final(self).status() == #[trigger] preindexing_status(total, now)) && event
                == Ok::<_, InvalidStatusTransition>(IndexingStatusChanged(final(self).status())),
            phase(old(self).status()) > 2 ==> final(self).status() == old(self).status() && event
                == Err::<IndexingStatusChanged, _>(InvalidStatusTransition::PastThatPhase),
    {
        let now = utc_now();
        self.set_preindexing_started_at(total, now)
    }

    /// One more file was pre-indexed. The event comes with every
    /// hundredth of the total only; with fewer than a hundred files in
    /// all it comes with every file.
    pub fn increment_preindexed(&mut self) -> (event: Result<
        Option<IndexingStatusChanged>,
        InvalidStatusTransition,
    >)
        requires
            can_increment_preindexed(old(self).status()),
        ensures
            match old(self).status() {
                Status::InProgress(progress) => {
                    &&& final(self).status() == after_preindexed(progress)
                    &&& event == Ok::<_, InvalidStatusTransition>(
                        if on_percent_boundary(
                            progress.preindexing.preindexed + 1,
                            progress.total as int,
                        ) {
                            Some(IndexingStatusChanged(final(self).status()))
                        } else {
                            None
                        },
                    )
                },
                _ => {
                    &&& final(self).status() == old(self).status()
                    &&& event == Err::<Option<IndexingStatusChanged>, _>(
                        InvalidStatusTransition::NotInProgress,
                    )
                },
            },
    {
        match self.status {
            Status::InProgress(progress) => {
                let preindexed: u32 = progress.preindexing.preindexed + 1;
                self.status = Status::InProgress(
                    Progress {
                        preindexing: PreIndexingProgress {
                            started_preindexing: progress.preindexing.started_preindexing,
                            preindexed,
                        },
                        indexing: progress.indexing,
                        total: progress.total,
                    },
                );
                let hundredth: u32 = progress.total / 100;
                if hundredth == 0 || preindexed % hundredth == 0 {
                    Ok(Some(IndexingStatusChanged(self.status)))
                } else {
                    Ok(None)
                }
            },
            _ => Err(InvalidStatusTransition::NotInProgress),
        }
    }

    /// Indexing of `total_to_index` new files began at `now`. Allowed
    /// while a run is in progress.
    pub fn set_indexing_started_at(&mut self, total_to_index: u32, now: i64) -> (event:
        Result<IndexingStatusChanged, InvalidStatusTransition>)
        ensures
            match old(self).status() {
                Status::InProgress(progress) => {
                    &&& final(self).status() == indexing_status(progress, total_to_index, now)
                    &&& event == Ok::<_, InvalidStatusTransition>(
                        IndexingStatusChanged(final(self).status()),
                    )
                },
                _ => {
                    &&& final(self).status() == old(self).status()
                    &&& event == Err::<IndexingStatusChanged, _>(
                        InvalidStatusTransition::NotInProgress,
                    )
                },
            },
    {
        match self.status {
            Status::InProgress(progress) => {
                self.status = Status::InProgress(
                    Progress {
                        preindexing: progress.preindexing,
                        indexing: Some(
                            IndexingProgress {
                                started_indexing: now,
                                newly_indexed: 0,
                                total_to_index,
                            },
                        ),
                        total: progress.total,
                    },
                );
                Ok(IndexingStatusChanged(self.status))
            },
            _ => Err(InvalidStatusTransition::NotInProgress),
        }
    }

    /// Indexing of `total_to_index` new files begins now.
    pub fn set_indexing_started(&mut self, total_to_index: u32) -> (event: Result<
        IndexingStatusChanged,
        InvalidStatusTransition,
    >)
        ensures
            match old(self).status() {
                Status::InProgress(progress) => {
                    &&& exists|now: i64|
                        final(self).status() == #[trigger] indexing_status(
                            progress,
                            total_to_index,
                            now,
                        )
                    &&& event == Ok::<_, InvalidStatusTransition>(
                        IndexingStatusChanged(final(self).status()),
                    )
                },
                _ => {
                    &&& final(self).status() == old(self).status()
                    &&& event == Err::<IndexingStatusChanged, _>(
                        InvalidStatusTransition::NotInProgress,
                    )
                },
            },
    {
        let now = utc_now();
        self.set_indexing_started_at(total_to_index, now)
    }

    /// One more new file was indexed. The event comes with every
    /// hundredth of the files to index only; with fewer than a hundred
    /// files to index it comes with every file.
    pub fn increment_indexed(&mut self) -> (event: Result<
        Option<IndexingStatusChanged>,
        InvalidStatusTransition,
    >)
        requires
            can_increment_indexed(old(self).status()),
        ensures
            match old(self).status() {
                Status::InProgress(progress) => match progress.indexing {
                    Some(indexing) => {
                        &&& final(self).status() == after_indexed(progress)
                        &&& event == Ok::<_, InvalidStatusTransition>(
                            if on_percent_boundary(
                                indexing.newly_indexed + 1,
                                indexing.total_to_index as int,
                            ) {
                                Some(IndexingStatusChanged(final(self).status()))
                            } else {
                                None
                            },
                        )
                    },
                    None => {
                        &&& final(self).status() == old(self).status()
                        &&& event == Err::<Option<IndexingStatusChanged>, _>(
                            InvalidStatusTransition::NotIndexing,
                        )
                    },
                },
                _ => {
                    &&& final(self).status() == old(self).status()
                    &&& event == Err::<Option<IndexingStatusChanged>, _>(
                        InvalidStatusTransition::NotInProgress,
                    )
                },
            },
    {
        match self.status {
            Status::InProgress(progress) => match progress.indexing {
                Some(indexing) => {
                    let newly_indexed: u32 = indexing.newly_indexed + 1;
                    self.status = Status::InProgress(
                        Progress {
                            preindexing: progress.preindexing,
                            indexing: Some(
                                IndexingProgress {
                                    started_indexing: indexing.started_indexing,
                                    newly_indexed,
                                    total_to_index: indexing.total_to_index,
                                },
                            ),
                            total: progress.total,
                        },
                    );
                    let hundredth: u32 = indexing.total_to_index / 100;
                    if hundredth == 0 || newly_indexed % hundredth == 0 {
                        Ok(Some(IndexingStatusChanged(self.status)))
                    } else {
                        Ok(None)
                    }
                },
                None => Err(InvalidStatusTransition::NotIndexing),
            },
            _ => Err(InvalidStatusTransition::NotInProgress),
        }
    }

    /// The run is over, or is given up: back to idle from any status.
    pub fn set_idle(&mut self) -> (event: IndexingStatusChanged)
        ensures
            final(self).status() == Status::Idle,
            event.0 == Status::Idle,
    {
        self.status = Status::Idle;
        IndexingStatusChanged(self.status)
    }

    /// A snapshot of the current status.
    pub fn get_status(&self) -> (status: Status)
        ensures
            status == self.status(),
    {
        self.status
    }

    /// Whether `increment_preindexed` may be called.
    pub fn preindexed_can_move(&self) -> (can: bool)
        ensures
            can == can_increment_preindexed(self.status()),
    {
        match self.status {
            Status::InProgress(progress) => progress.preindexing.preindexed < u32::MAX,
            _ => true,
        }
    }

    /// Whether `increment_indexed` may be called.
    pub fn indexed_can_move(&self) -> (can: bool)
        ensures
            can == can_increment_indexed(self.status()),
    {
        match self.status {
            Status::InProgress(progress) => match progress.indexing {
                Some(indexing) => indexing.newly_indexed < u32::MAX,
                None => true,
            },
            _ => true,
        }
    }
}

/// The statuses that an operation other than `set_idle` can lead to from
/// `before`, when it succeeds.
pub open spec fn moves_on(before: Status, after: Status) -> bool {
    ||| phase(before) <= 1 && after == Status::Started
    ||| phase(before) <= 2 && exists|total: u32, now: i64|
        after == #[trigger] preindexing_status(total, now)
    ||| before matches Status::InProgress(progress) && exists|total: u32, now: i64|
        after == #[trigger] indexing_status(progress, total, now)
    ||| before matches Status::InProgress(progress) && after == after_preindexed(progress)
    ||| before matches Status::InProgress(progress) && progress.indexing is Some && after
        == after_indexed(progress)
}

/// No operation but `set_idle` takes the status back to an earlier phase.
pub proof fn lemma_status_never_goes_back(before: Status, after: Status)
    requires
        moves_on(before, after),
    ensures
        phase(before) <= phase(after),
{
}

} // verus!
