//! What the speaker answers to a remote caller.

use vstd::prelude::*;

verus! {

/// Why a task cannot be reported on.
#[derive(Debug, Clone, Copy, PartialEq, Eq, Structural)]
pub enum TaskManageError {
    /// Task not found.
    NotFound,
    /// Task downcast error.
    DowncastError,
}

/// Where a request to store a sample stands.
#[derive(Debug)]
pub enum StoreSampleTaskState {
    Pending,
    Running(StoreSampleProgress),
    Completed(()),
    Failed(StoreSampleError),
}

/// The stages of storing a sample, in the order in which they are reported.
#[derive(Debug, Clone, Copy, PartialEq, Eq, Structural)]
pub enum StoreSampleProgress {
    CheckingDatabase,
    DownloadingSample,
    ReadingBlob,
    CheckingSampleData,
    CommittingDatabase,
}

/// Why a sample was not stored.
#[derive(Debug)]
pub enum StoreSampleError {
    /// Ticket can not be reached.
    TicketNotReached(String),
    /// Database error.
    DatabaseError(String),
    /// Audio sample exists.
    SampleExists,
    /// Audio sample is broken.
    BrokenSample,
    /// Data pack is broken.
    BrokenPack,
}

impl Clone for StoreSampleError {
    fn clone(&self) -> (r: Self)
        ensures
            r == *self,
    {
        match self {
            StoreSampleError::TicketNotReached(e) => StoreSampleError::TicketNotReached(e.clone()),
            StoreSampleError::DatabaseError(e) => StoreSampleError::DatabaseError(e.clone()),
            StoreSampleError::SampleExists => StoreSampleError::SampleExists,
            StoreSampleError::BrokenSample => StoreSampleError::BrokenSample,
            StoreSampleError::BrokenPack => StoreSampleError::BrokenPack,
        }
    }
}

impl Clone for StoreSampleTaskState {
    fn clone(&self) -> (r: Self)
        ensures
            r == *self,
    {
        match self {
            StoreSampleTaskState::Pending => StoreSampleTaskState::Pending,
            StoreSampleTaskState::Running(p) => StoreSampleTaskState::Running(*p),
            StoreSampleTaskState::Completed(()) => StoreSampleTaskState::Completed(()),
            StoreSampleTaskState::Failed(e) => StoreSampleTaskState::Failed(e.clone()),
        }
    }
}

/// What is known of a stored sample: its length in nanoseconds and its rate.
#[derive(Debug, Clone, Copy, PartialEq, Eq, Structural)]
pub struct SampleInfo {
    pub length: u128,
    pub rate: u32,
}

/// Why nothing is told of a sample.
#[derive(Debug, Clone, Copy, PartialEq, Eq, Structural)]
pub enum QuerySampleError {
    /// Hash not found.
    NotFound,
}

/// Why a sample was not removed.
#[derive(Debug, Clone, Copy, PartialEq, Eq, Structural)]
pub enum RemoveSampleError {
    /// Hash not found.
    NotFound,
}

impl TaskManageError {
    /// The error in words.
    pub fn message(&self) -> (r: &'static str)
        ensures
            r@ == (match *self {
                TaskManageError::NotFound => "Task not found."@,
                TaskManageError::DowncastError => "Task downcast error."@,
            }),
    {
        match self {
            TaskManageError::NotFound => "Task not found.",
            TaskManageError::DowncastError => "Task downcast error.",
        }
    }
}

impl StoreSampleError {
    /// The error in words.
    pub fn message(&self) -> (r: String)
        ensures
            r@ == (match *self {
                StoreSampleError::TicketNotReached(e) => "Ticket can not be reached: "@ + e@,
                StoreSampleError::DatabaseError(e) => "Database Error: "@ + e@,
                StoreSampleError::SampleExists => "Audio sample exists."@,
                StoreSampleError::BrokenSample => "Audio sample is broken."@,
                StoreSampleError::BrokenPack => "Data pack is broken."@,
            }),
    {
        match self {
            StoreSampleError::TicketNotReached(e) => {
                let mut r = "Ticket can not be reached: ".to_owned();
                r.append(e.as_str());
                r
            },
            StoreSampleError::DatabaseError(e) => {
                let mut r = "Database Error: ".to_owned();
                r.append(e.as_str());
                r
            },
            StoreSampleError::SampleExists => "Audio sample exists.".to_owned(),
            StoreSampleError::BrokenSample => "Audio sample is broken.".to_owned(),
            StoreSampleError::BrokenPack => "Data pack is broken.".to_owned(),
        }
    }
}

impl QuerySampleError {
    /// The error in words.
    pub fn message(&self) -> (r: &'static str)
        ensures
            r@ == "Hash not found."@,
    {
        "Hash not found."
    }
}

impl RemoveSampleError {
    /// The error in words.
    pub fn message(&self) -> (r: &'static str)
        ensures
            r@ == "Hash not found."@,
    {
        "Hash not found."
    }
}

} // verus!
