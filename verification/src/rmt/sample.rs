//! Opening the databases of the samples: what is tried, and in which order.

use vstd::prelude::*;

verus! {

/// What is tried next.
#[derive(Debug, Clone, Copy, PartialEq, Eq, Structural)]
pub enum DbStage {
    /// To find the directory that the database goes under.
    FindDir,
    /// To open the database and close it again.
    Test,
    /// To find the database's own directory.
    FindOwnDir,
    /// To remove the database's own directory.
    Remove,
    /// To create the database's own directory.
    Create,
    /// To open the new database and close it again.
    Retest,
}

/// What came of a stage.
#[derive(Debug, Clone, Copy, PartialEq, Eq, Structural)]
pub enum DbOutcome {
    /// It was done, or what was looked for is there.
    Done,
    /// It failed, or what was looked for is not there.
    Failed,
    /// There is no runtime to open the database in, and none could be started.
    NoRuntime,
}

/// Why a database cannot be used.
#[derive(Debug, Clone, Copy, PartialEq, Eq, Structural)]
pub enum DbError {
    DirectoryNotFound,
    RemoveDir,
    CreateDir,
    /// The new database could not be opened or closed.
    LoadDatabase,
    /// The runtime that the new database was to be opened in could not be started.
    StartRuntime,
}

/// What comes of a stage.
#[derive(Debug, Clone, Copy, PartialEq, Eq, Structural)]
pub enum DbNext {
    Go(DbStage),
    Ready,
    Fail(DbError),
}

/// What the two kinds of databases have in common: an old one is removed and a new one created.
pub open spec fn rebuild_next(stage: DbStage, outcome: DbOutcome) -> DbNext {
    match stage {
        DbStage::Remove => if outcome == DbOutcome::Done {
            DbNext::Go(DbStage::Create)
        } else {
            DbNext::Fail(DbError::RemoveDir)
        },
        DbStage::Create => if outcome == DbOutcome::Done {
            DbNext::Go(DbStage::Retest)
        } else {
            DbNext::Fail(DbError::CreateDir)
        },
        _ => match outcome {
            DbOutcome::Done => DbNext::Ready,
            DbOutcome::Failed => DbNext::Fail(DbError::LoadDatabase),
            DbOutcome::NoRuntime => DbNext::Fail(DbError::StartRuntime),
        },
    }
}

/// The samples that are kept: the database is used if it can be opened, and is made anew
/// otherwise.
pub open spec fn store_next_of(stage: DbStage, outcome: DbOutcome) -> DbNext {
    match stage {
        DbStage::FindDir => if outcome == DbOutcome::Done {
            DbNext::Go(DbStage::Test)
        } else {
            DbNext::Fail(DbError::DirectoryNotFound)
        },
        DbStage::Test => if outcome == DbOutcome::Done {
            DbNext::Ready
        } else {
            DbNext::Go(DbStage::Remove)
        },
        _ => rebuild_next(stage, outcome),
    }
}

/// The samples that are only cached: the database is always made anew.
pub open spec fn cache_next_of(stage: DbStage, outcome: DbOutcome) -> DbNext {
    match stage {
        DbStage::FindDir => if outcome == DbOutcome::Done {
            DbNext::Go(DbStage::FindOwnDir)
        } else {
            DbNext::Fail(DbError::DirectoryNotFound)
        },
        DbStage::FindOwnDir => if outcome == DbOutcome::Done {
            DbNext::Go(DbStage::Remove)
        } else {
            DbNext::Go(DbStage::Create)
        },
        _ => rebuild_next(stage, outcome),
    }
}

fn rebuild(stage: DbStage, outcome: DbOutcome) -> (r: DbNext)
    ensures
        r == rebuild_next(stage, outcome),
{
    match stage {
        DbStage::Remove => {
            if outcome == DbOutcome::Done {
                DbNext::Go(DbStage::Create)
            } else {
                DbNext::Fail(DbError::RemoveDir)
            }
        },
        DbStage::Create => {
            if outcome == DbOutcome::Done {
                DbNext::Go(DbStage::Retest)
            } else {
                DbNext::Fail(DbError::CreateDir)
            }
        },
        _ => match outcome {
            DbOutcome::Done => DbNext::Ready,
            DbOutcome::Failed => DbNext::Fail(DbError::LoadDatabase),
            DbOutcome::NoRuntime => DbNext::Fail(DbError::StartRuntime),
        },
    }
}

/// What follows a stage in opening the database of the samples that are kept. It begins with
/// [`DbStage::FindDir`].
pub fn store_next(stage: DbStage, outcome: DbOutcome) -> (r: DbNext)
    ensures
        r == store_next_of(stage, outcome),
{
    match stage {
        DbStage::FindDir => {
            if outcome == DbOutcome::Done {
                DbNext::Go(DbStage::Test)
            } else {
                DbNext::Fail(DbError::DirectoryNotFound)
            }
        },
        DbStage::Test => {
            if outcome == DbOutcome::Done {
                DbNext::Ready
            } else {
                DbNext::Go(DbStage::Remove)
            }
        },
        _ => rebuild(stage, outcome),
    }
}

/// What follows a stage in opening the database of the samples that are only cached. It begins
/// with [`DbStage::FindDir`].
pub fn cache_next(stage: DbStage, outcome: DbOutcome) -> (r: DbNext)
    ensures
        r == cache_next_of(stage, outcome),
{
    match stage {
        DbStage::FindDir => {
            if outcome == DbOutcome::Done {
                DbNext::Go(DbStage::FindOwnDir)
            } else {
                DbNext::Fail(DbError::DirectoryNotFound)
            }
        },
        DbStage::FindOwnDir => {
            if outcome == DbOutcome::Done {
                DbNext::Go(DbStage::Remove)
            } else {
                DbNext::Go(DbStage::Create)
            }
        },
        _ => rebuild(stage, outcome),
    }
}

/// The stage after the `i`th follows from it.
pub open spec fn goes_on(stages: Seq<DbStage>, outcomes: Seq<DbOutcome>, cached: bool, i: int) -> bool {
    (if cached {
        cache_next_of(stages[i], outcomes[i])
    } else {
        store_next_of(stages[i], outcomes[i])
    }) == DbNext::Go(stages[i + 1])
}

/// The stages that opening a database goes through, given what comes of each of them.
pub open spec fn opens(stages: Seq<DbStage>, outcomes: Seq<DbOutcome>, cached: bool) -> bool {
    &&& stages.len() == outcomes.len() > 0
    &&& stages[0] == DbStage::FindDir
    &&& forall|i: int| 0 <= i < stages.len() - 1 ==> #[trigger] goes_on(stages, outcomes, cached, i)
}

/// Samples that are kept are not removed while their database can be opened.
pub proof fn law_good_store_is_kept(stages: Seq<DbStage>, outcomes: Seq<DbOutcome>, i: int)
    requires
        opens(stages, outcomes, false),
        0 <= i < stages.len(),
        stages[i] == DbStage::Remove,
    ensures
        i > 0,
        stages[i - 1] == DbStage::Test,
        outcomes[i - 1] != DbOutcome::Done,
{
    if i > 0 {
        assert(goes_on(stages, outcomes, false, i - 1));
    }
}

/// Samples that are kept are used as they are where their database can be opened.
pub proof fn law_good_store_is_used(stages: Seq<DbStage>, outcomes: Seq<DbOutcome>, i: int)
    requires
        opens(stages, outcomes, false),
        0 <= i < stages.len(),
        stages[i] is Test,
        outcomes[i] is Done,
    ensures
        i == stages.len() - 1,
        store_next_of(stages[i], outcomes[i]) is Ready,
{
    if i < stages.len() - 1 {
        assert(goes_on(stages, outcomes, false, i));
    }
}

/// Opening a database fails only where something failed that it cannot go on without, and tells
/// which: a directory that is not there, one that cannot be removed or created, or a new
/// database that does not open.
pub proof fn law_database_fails_for_a_reason(
    stages: Seq<DbStage>,
    outcomes: Seq<DbOutcome>,
    cached: bool,
    e: DbError,
)
    requires
        opens(stages, outcomes, cached),
        (if cached {
            cache_next_of(stages.last(), outcomes.last())
        } else {
            store_next_of(stages.last(), outcomes.last())
        }) == DbNext::Fail(e),
    ensures
        !(outcomes.last() is Done),
        match e {
            DbError::DirectoryNotFound => stages.last() is FindDir,
            DbError::RemoveDir => stages.last() is Remove,
            DbError::CreateDir => stages.last() is Create,
            DbError::LoadDatabase => stages.last() is Retest && outcomes.last() is Failed,
            DbError::StartRuntime => stages.last() is Retest && outcomes.last() is NoRuntime,
        },
{
    lemma_stages_of_kind(stages, outcomes, cached, stages.len() - 1);
}

/// A database whose own directory was removed was created anew before it is ready.
pub proof fn law_removed_database_is_created(
    stages: Seq<DbStage>,
    outcomes: Seq<DbOutcome>,
    cached: bool,
    i: int,
)
    requires
        opens(stages, outcomes, cached),
        0 <= i < stages.len(),
        stages[i] is Remove,
        (if cached {
            cache_next_of(stages.last(), outcomes.last())
        } else {
            store_next_of(stages.last(), outcomes.last())
        }) is Ready,
    ensures
        i + 2 == stages.len() - 1,
        outcomes[i] is Done,
        stages[i + 1] is Create,
        outcomes[i + 1] is Done,
        stages[i + 2] is Retest,
        outcomes[i + 2] is Done,
{
    let last = stages.len() - 1;
    assert(i < last);
    assert(goes_on(stages, outcomes, cached, i));
    assert(i + 1 < last);
    assert(goes_on(stages, outcomes, cached, i + 1));
    if i + 2 < last {
        assert(goes_on(stages, outcomes, cached, i + 2));
    }
}

proof fn lemma_stages_of_kind(
    stages: Seq<DbStage>,
    outcomes: Seq<DbOutcome>,
    cached: bool,
    i: int,
)
    requires
        opens(stages, outcomes, cached),
        0 <= i < stages.len(),
    ensures
        cached ==> !(stages[i] is Test),
        !cached ==> !(stages[i] is FindOwnDir),
    decreases i,
{
    if i > 0 {
        lemma_stages_of_kind(stages, outcomes, cached, i - 1);
        assert(goes_on(stages, outcomes, cached, i - 1));
    }
}

/// Samples that are only cached never outlive a start: the database is ready only after it was
/// created.
pub proof fn law_cache_starts_empty(stages: Seq<DbStage>, outcomes: Seq<DbOutcome>)
    requires
        opens(stages, outcomes, true),
        cache_next_of(stages.last(), outcomes.last()) == DbNext::Ready,
    ensures
        stages.len() >= 2,
        stages[stages.len() - 2] == DbStage::Create,
        outcomes[stages.len() - 2] == DbOutcome::Done,
{
    let n = stages.len() as int;
    lemma_no_test_in_cache(stages, outcomes, n - 1);
    if n >= 2 {
        assert(goes_on(stages, outcomes, true, n - 2));
        lemma_no_test_in_cache(stages, outcomes, n - 2);
    }
}

proof fn lemma_no_test_in_cache(stages: Seq<DbStage>, outcomes: Seq<DbOutcome>, i: int)
    requires
        opens(stages, outcomes, true),
        0 <= i < stages.len(),
    ensures
        stages[i] != DbStage::Test,
    decreases i,
{
    if i > 0 {
        assert(goes_on(stages, outcomes, true, i - 1));
    }
}

} // verus!
