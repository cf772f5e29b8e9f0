//! Jobs: the per-connection tasks (a transfer or a sync session) that a
//! server tracks by id.
use vstd::prelude::*;
use crate::strmap::StrMap;

verus! {

#[derive(Clone, Copy, Debug, PartialEq, Eq, Structural)]
pub enum JobType {
    Transfer,
    Sync,
}

/// `Pending`, then `Running`, then `Finished` or `Canceled`.
#[derive(Clone, Copy, Debug, PartialEq, Eq, Structural)]
pub enum JobStatus {
    Pending,
    Running,
    Finished,
    Canceled,
}

/// A job's id, kind, status and the request parameters it was made with.
/// The file that a transfer job has open lives beside it, with the caller.
pub struct Job {
    pub id: u32,
    pub job_type: JobType,
    pub status: JobStatus,
    pub params: StrMap<String>,
}

} // verus!
