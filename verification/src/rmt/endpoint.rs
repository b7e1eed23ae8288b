//! Storing a sample for a remote caller, and telling how far that has come.

use vstd::prelude::*;

use crate::rpc::{
    StoreSampleError, StoreSampleProgress, StoreSampleTaskState, TaskManageError,
};
use crate::task::{TaskId, TaskManager, TypedTaskState};

verus! {

/// What is done next to store a sample.
#[derive(Debug, Clone, Copy, PartialEq, Eq, Structural)]
pub enum StoreStage {
    /// To begin a transaction.
    Begin,
    /// To look the sample up by its hash.
    Lookup,
    /// To download the sample.
    Download,
    /// To read what was downloaded.
    ReadBlob,
    /// To put it into the transaction.
    Write,
    /// To commit the transaction.
    Commit,
}

/// What came of a stage.
#[derive(Debug)]
pub enum StageResult {
    Done,
    /// The sample is in the database already.
    Found,
    Failed(String),
}

/// What follows a stage.
#[derive(Debug)]
pub enum StoreNext {
    /// The progress is reported, in order, and the next stage is done.
    Go { reports: Vec<StoreSampleProgress>, stage: StoreStage },
    /// The task is over.
    Finish(Result<(), StoreSampleError>),
}

/// What is reported before a stage.
pub open spec fn reports_before(stage: StoreStage) -> Seq<StoreSampleProgress> {
    match stage {
        StoreStage::Begin => seq![StoreSampleProgress::CheckingDatabase],
        StoreStage::Lookup => seq![],
        StoreStage::Download => seq![StoreSampleProgress::DownloadingSample],
        StoreStage::ReadBlob => seq![StoreSampleProgress::ReadingBlob],
        StoreStage::Write => seq![
            StoreSampleProgress::CheckingSampleData,
            StoreSampleProgress::CommittingDatabase,
        ],
        StoreStage::Commit => seq![],
    }
}

/// The stage that follows a stage that was done, if there is one.
pub open spec fn stage_after(stage: StoreStage) -> Option<StoreStage> {
    match stage {
        StoreStage::Begin => Some(StoreStage::Lookup),
        StoreStage::Lookup => Some(StoreStage::Download),
        StoreStage::Download => Some(StoreStage::ReadBlob),
        StoreStage::ReadBlob => Some(StoreStage::Write),
        StoreStage::Write => Some(StoreStage::Commit),
        StoreStage::Commit => None,
    }
}

/// What a stage that failed makes of the task.
pub open spec fn failure_of(stage: StoreStage, message: String) -> StoreSampleError {
    match stage {
        StoreStage::Download | StoreStage::ReadBlob => StoreSampleError::TicketNotReached(message),
        _ => StoreSampleError::DatabaseError(message),
    }
}

fn reports(stage: StoreStage) -> (r: Vec<StoreSampleProgress>)
    ensures
        r@ == reports_before(stage),
{
    let mut r: Vec<StoreSampleProgress> = Vec::new();
    match stage {
        StoreStage::Begin => r.push(StoreSampleProgress::CheckingDatabase),
        StoreStage::Lookup => {},
        StoreStage::Download => r.push(StoreSampleProgress::DownloadingSample),
        StoreStage::ReadBlob => r.push(StoreSampleProgress::ReadingBlob),
        StoreStage::Write => {
            r.push(StoreSampleProgress::CheckingSampleData);
            r.push(StoreSampleProgress::CommittingDatabase);
        },
        StoreStage::Commit => {},
    }
    r
}

/// How storing a sample begins.
pub fn store_audio_sample_begin() -> (r: StoreNext)
    ensures
        r matches StoreNext::Go { reports, stage } && stage == StoreStage::Begin && reports@
            == reports_before(StoreStage::Begin),
{
    StoreNext::Go { reports: reports(StoreStage::Begin), stage: StoreStage::Begin }
}

/// How the task ends with what came of a stage, if it does: with the failure if the stage failed
/// or the sample was found, and well after the last stage.
pub open spec fn ends_with(stage: StoreStage, result: StageResult) -> Option<
    Result<(), StoreSampleError>,
> {
    match result {
        StageResult::Failed(message) => Some(Err(failure_of(stage, message))),
        StageResult::Found if stage == StoreStage::Lookup => Some(
            Err(StoreSampleError::SampleExists),
        ),
        _ => if stage_after(stage) is None {
            Some(Ok(()))
        } else {
            None
        },
    }
}

/// What follows a stage of storing a sample.
pub fn store_audio_sample_step(stage: StoreStage, result: StageResult) -> (r: StoreNext)
    ensures
        match ends_with(stage, result) {
            Some(end) => r == StoreNext::Finish(end),
            None => r matches StoreNext::Go { reports, stage: next } && Some(next) == stage_after(
                stage,
            ) && reports@ == reports_before(next),
        },
{
    match result {
        StageResult::Failed(message) => {
            return StoreNext::Finish(
                Err(
                    match stage {
                        StoreStage::Download
                        | StoreStage::ReadBlob => StoreSampleError::TicketNotReached(message),
                        _ => StoreSampleError::DatabaseError(message),
                    },
                ),
            );
        },
        StageResult::Found => {
            if stage == StoreStage::Lookup {
                return StoreNext::Finish(Err(StoreSampleError::SampleExists));
            }
        },
        StageResult::Done => {},
    }
    let next = match stage {
        StoreStage::Begin => StoreStage::Lookup,
        StoreStage::Lookup => StoreStage::Download,
        StoreStage::Download => StoreStage::ReadBlob,
        StoreStage::ReadBlob => StoreStage::Write,
        StoreStage::Write => StoreStage::Commit,
        StoreStage::Commit => {
            return StoreNext::Finish(Ok(()));
        },
    };
    StoreNext::Go { reports: reports(next), stage: next }
}

/// Where a stage stands in the order of the stages.
pub open spec fn rank(stage: StoreStage) -> int {
    match stage {
        StoreStage::Begin => 0,
        StoreStage::Lookup => 1,
        StoreStage::Download => 2,
        StoreStage::ReadBlob => 3,
        StoreStage::Write => 4,
        StoreStage::Commit => 5,
    }
}

/// Where a report stands in the order of the reports.
pub open spec fn report_rank(p: StoreSampleProgress) -> int {
    match p {
        StoreSampleProgress::CheckingDatabase => 0,
        StoreSampleProgress::DownloadingSample => 1,
        StoreSampleProgress::ReadingBlob => 2,
        StoreSampleProgress::CheckingSampleData => 3,
        StoreSampleProgress::CommittingDatabase => 4,
    }
}

/// The stages of storing a sample, what came of each of them, and how it ended.
pub open spec fn stores(
    stages: Seq<StoreStage>,
    results: Seq<StageResult>,
    end: Result<(), StoreSampleError>,
) -> bool {
    &&& stages.len() == results.len() > 0
    &&& stages[0] == StoreStage::Begin
    &&& forall|i: int| 0 <= i < stages.len() - 1 ==> #[trigger] goes_on(stages, results, i)
    &&& ends_with(stages.last(), results.last()) == Some(end)
}

/// The `i`th stage leads to the next.
pub open spec fn goes_on(stages: Seq<StoreStage>, results: Seq<StageResult>, i: int) -> bool {
    ends_with(stages[i], results[i]) is None && stage_after(stages[i]) == Some(stages[i + 1])
}

/// What is reported while the stages are gone through.
pub open spec fn reported(stages: Seq<StoreStage>) -> Seq<StoreSampleProgress>
    decreases stages.len(),
{
    if stages.len() == 0 {
        Seq::empty()
    } else {
        reported(stages.drop_last()) + reports_before(stages.last())
    }
}

/// The stages come one after the other and never again: nothing is downloaded before the
/// database was asked, and nothing is written before all of it was read.
pub proof fn law_stages_in_order(
    stages: Seq<StoreStage>,
    results: Seq<StageResult>,
    end: Result<(), StoreSampleError>,
    i: int,
)
    requires
        stores(stages, results, end),
        0 <= i < stages.len(),
    ensures
        rank(stages[i]) == i,
    decreases i,
{
    if i > 0 {
        law_stages_in_order(stages, results, end, i - 1);
        assert(goes_on(stages, results, i - 1));
    }
}

/// The reports come in their order, each at most once.
pub proof fn law_reports_in_order(
    stages: Seq<StoreStage>,
    results: Seq<StageResult>,
    end: Result<(), StoreSampleError>,
    i: int,
)
    requires
        stores(stages, results, end),
        0 <= i < reported(stages).len(),
    ensures
        report_rank(reported(stages)[i]) == i,
{
    lemma_reported(stages, results, end, stages.len() as int);
    assert(stages.take(stages.len() as int) =~= stages);
}

/// What was reported before the first so many stages are over.
proof fn lemma_reported(
    stages: Seq<StoreStage>,
    results: Seq<StageResult>,
    end: Result<(), StoreSampleError>,
    n: int,
)
    requires
        stores(stages, results, end),
        0 <= n <= stages.len(),
    ensures
        reported(stages.take(n)).len() == (if n <= 2 {
            if n == 0 {
                0int
            } else {
                1
            }
        } else if n <= 4 {
            n - 1
        } else {
            5
        }),
        forall|i: int|
            0 <= i < reported(stages.take(n)).len() ==> report_rank(
                #[trigger] reported(stages.take(n))[i],
            ) == i,
    decreases n,
{
    if n > 0 {
        lemma_reported(stages, results, end, n - 1);
        law_stages_in_order(stages, results, end, n - 1);
        assert(stages.take(n).drop_last() =~= stages.take(n - 1));
        assert(stages.take(n).last() == stages[n - 1]);
    }
}

/// A sample that is there already is not downloaded: only the database is asked.
pub proof fn law_existing_sample_is_not_downloaded(
    stages: Seq<StoreStage>,
    results: Seq<StageResult>,
)
    requires
        stores(stages, results, Err(StoreSampleError::SampleExists)),
    ensures
        stages == seq![StoreStage::Begin, StoreStage::Lookup],
        !stages.contains(StoreStage::Download),
        reported(stages) == seq![StoreSampleProgress::CheckingDatabase],
{
    let end = Err(StoreSampleError::SampleExists);
    law_stages_in_order(stages, results, end, stages.len() - 1);
    law_stages_in_order(stages, results, end, 0);
    assert(stages =~= seq![StoreStage::Begin, StoreStage::Lookup]);
    lemma_reported(stages, results, end, 2);
    assert(stages.take(2) =~= stages);
    assert(reported(stages) =~= seq![StoreSampleProgress::CheckingDatabase]) by {
        assert(report_rank(reported(stages)[0]) == 0);
    }
}

/// Storing a sample well goes through every stage and reports all of its progress, each part
/// once and in order.
pub proof fn law_stored_sample_went_through_all(
    stages: Seq<StoreStage>,
    results: Seq<StageResult>,
)
    requires
        stores(stages, results, Ok(())),
    ensures
        stages == seq![
            StoreStage::Begin,
            StoreStage::Lookup,
            StoreStage::Download,
            StoreStage::ReadBlob,
            StoreStage::Write,
            StoreStage::Commit,
        ],
        reported(stages) == seq![
            StoreSampleProgress::CheckingDatabase,
            StoreSampleProgress::DownloadingSample,
            StoreSampleProgress::ReadingBlob,
            StoreSampleProgress::CheckingSampleData,
            StoreSampleProgress::CommittingDatabase,
        ],
{
    let end = Ok(());
    law_stages_in_order(stages, results, end, stages.len() - 1);
    assert forall|i: int| 0 <= i < stages.len() implies rank(#[trigger] stages[i]) == i by {
        law_stages_in_order(stages, results, end, i);
    }
    assert(stages =~= seq![
        StoreStage::Begin,
        StoreStage::Lookup,
        StoreStage::Download,
        StoreStage::ReadBlob,
        StoreStage::Write,
        StoreStage::Commit,
    ]);
    lemma_reported(stages, results, end, 6);
    assert(stages.take(6) =~= stages);
    assert forall|i: int| 0 <= i < 5 implies report_rank(#[trigger] reported(stages)[i]) == i by {}
    assert(reported(stages) =~= seq![
        StoreSampleProgress::CheckingDatabase,
        StoreSampleProgress::DownloadingSample,
        StoreSampleProgress::ReadingBlob,
        StoreSampleProgress::CheckingSampleData,
        StoreSampleProgress::CommittingDatabase,
    ]);
}

/// Storing a sample ends with what its last stage came to: with the message of the failure, laid
/// to the ticket if it was about the download and to the database otherwise, with the sample
/// being there if the lookup found it, and well only if the last stage is the commit.
pub proof fn law_end_tells_the_cause(
    stages: Seq<StoreStage>,
    results: Seq<StageResult>,
    end: Result<(), StoreSampleError>,
)
    requires
        stores(stages, results, end),
    ensures
        match results.last() {
            StageResult::Failed(message) => match end {
                Err(StoreSampleError::TicketNotReached(m)) => m == message && (
                stages.last() is Download || stages.last() is ReadBlob),
                Err(StoreSampleError::DatabaseError(m)) => m == message && !(
                stages.last() is Download) && !(stages.last() is ReadBlob),
                _ => false,
            },
            StageResult::Found => if stages.last() is Lookup {
                end == Err::<(), _>(StoreSampleError::SampleExists)
            } else {
                end is Ok && stages.last() is Commit
            },
            StageResult::Done => end is Ok && stages.last() is Commit,
        },
{
    let last = stages.len() - 1;
    law_stages_in_order(stages, results, end, last);
}

/// A failure is never passed over, and neither is a sample that is there: the stage at which it
/// came is the last.
pub proof fn law_failure_ends_it(
    stages: Seq<StoreStage>,
    results: Seq<StageResult>,
    end: Result<(), StoreSampleError>,
    i: int,
)
    requires
        stores(stages, results, end),
        0 <= i < stages.len(),
        results[i] is Failed || (results[i] is Found && stages[i] is Lookup),
    ensures
        i == stages.len() - 1,
        end is Err,
{
    if i < stages.len() - 1 {
        assert(goes_on(stages, results, i));
    }
}

/// `r` tells of a task in the state `s`.
pub open spec fn tells(
    s: Option<crate::task::TaskState>,
    r: Result<StoreSampleTaskState, TaskManageError>,
) -> bool {
    match s {
        Some(crate::task::TaskState::Pending) => r == Ok::<_, TaskManageError>(
            StoreSampleTaskState::Pending,
        ),
        Some(crate::task::TaskState::Running(v)) => match <StoreSampleProgress as crate::task::TaskData>::held(v) {
            Some(p) => r == Ok::<_, TaskManageError>(StoreSampleTaskState::Running(p)),
            None => r == Err::<StoreSampleTaskState, _>(TaskManageError::NotFound),
        },
        Some(crate::task::TaskState::Completed(v)) => match <StoreSampleTaskState as crate::task::TaskData>::held(v) {
            Some(c) => r == Ok::<_, TaskManageError>(c),
            None => r == Err::<StoreSampleTaskState, _>(TaskManageError::NotFound),
        },
        Some(crate::task::TaskState::Failed(v)) => match <StoreSampleError as crate::task::TaskData>::held(v) {
            Some(e) => r == Ok::<_, TaskManageError>(StoreSampleTaskState::Failed(e)),
            None => r == Err::<StoreSampleTaskState, _>(TaskManageError::NotFound),
        },
        _ => r == Err::<StoreSampleTaskState, _>(TaskManageError::NotFound),
    }
}

/// While a sample is being stored, its latest progress is told, and when that failed, the reason.
pub proof fn law_progress_and_failure_are_told(
    before: crate::task::TaskState,
    progress: crate::task::TaskValue,
    failure: crate::task::TaskValue,
    running: Option<crate::task::TaskState>,
    failed: Option<crate::task::TaskState>,
    p: StoreSampleProgress,
    e: StoreSampleError,
    told: Result<StoreSampleTaskState, TaskManageError>,
    told_later: Result<StoreSampleTaskState, TaskManageError>,
)
    requires
        before.live(),
        <StoreSampleProgress as crate::task::TaskData>::held(progress) == Some(p),
        <StoreSampleError as crate::task::TaskData>::held(failure) == Some(e),
        crate::task::manager::steps(
            Some(before),
            crate::task::manager::TaskEvent::Progress(progress),
            running,
        ),
        tells(running, told),
        crate::task::manager::steps(
            running,
            crate::task::manager::TaskEvent::Finish(
                crate::task::manager::TaskOutcome::Failed(failure),
            ),
            failed,
        ),
        tells(failed, told_later),
    ensures
        told == Ok::<_, TaskManageError>(StoreSampleTaskState::Running(p)),
        told_later == Ok::<_, TaskManageError>(StoreSampleTaskState::Failed(e)),
{
}

/// How far storing a sample has come. A task that is not there, was cancelled or panicked is not
/// found, and neither is one that reported or ended with a value of another type.
pub fn store_audio_sample_task_state(tm: &TaskManager, tid: TaskId) -> (r: Result<
    StoreSampleTaskState,
    TaskManageError,
>)
    ensures
        tells(crate::task::manager::at(tm.states(), tid), r),
{
    match tm.get_status(tid) {
        Some(s) => match s.to_typed::<StoreSampleProgress, StoreSampleTaskState, StoreSampleError>() {
            TypedTaskState::Pending => Ok(StoreSampleTaskState::Pending),
            TypedTaskState::Running(progress) => Ok(StoreSampleTaskState::Running(*progress)),
            TypedTaskState::Completed(completed) => Ok((*completed).clone()),
            TypedTaskState::Failed(err) => Ok(StoreSampleTaskState::Failed((*err).clone())),
            _ => Err(TaskManageError::NotFound),
        },
        None => Err(TaskManageError::NotFound),
    }
}

} // verus!
