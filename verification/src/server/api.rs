//! The bodies of the server's HTTP answers and how its errors map to status
//! codes.

use vstd::prelude::*;
use crate::server::job_manager::JobStats;

verus! {

/// The answer of the health check.
#[derive(Debug, Clone, PartialEq, Eq)]
pub struct HealthResponse {
    pub status: String,
    pub version: String,
}

/// A worker's request for a job.
#[derive(Debug, Clone, PartialEq, Eq)]
pub struct JobRequest {
    pub worker_id: Option<String>,
}

/// The answer to a submitted result.
#[derive(Debug, Clone, Copy, PartialEq, Eq, Structural)]
pub struct SubmitResponse {
    pub success: bool,
}

/// The server's statistics.
#[derive(Debug, Clone, Copy, PartialEq, Eq, Structural)]
pub struct StatsResponse {
    pub total_jobs: usize,
    pub pending_jobs: usize,
    pub completed_jobs: usize,
    pub total_lineages: usize,
}

/// An error answered to a client, with its message.
#[derive(Debug, Clone, PartialEq, Eq)]
pub enum ApiError {
    Internal(String),
    NotFound(String),
}

/// The text of the healthy status.
pub open spec fn healthy_text() -> Seq<char> {
    seq!['h', 'e', 'a', 'l', 't', 'h', 'y']
}

impl HealthResponse {
    /// The health answer of a server of a version: status "healthy".
    pub fn healthy(version: &str) -> (r: HealthResponse)
        ensures
            r.status@ == healthy_text(),
            r.version@ == version@,
    {
        let status = "healthy";
        proof {
            reveal_strlit("healthy");
        }
        HealthResponse { status: status.to_string(), version: version.to_string() }
    }
}

impl SubmitResponse {
    /// The answer to a result that was processed.
    pub fn accepted() -> (r: SubmitResponse)
        ensures
            r.success,
    {
        SubmitResponse { success: true }
    }
}

impl StatsResponse {
    /// The statistics of the job counts and the number of lineages stored.
    pub fn from_stats(stats: JobStats, total_lineages: usize) -> (r: StatsResponse)
        ensures
            r.total_jobs == stats.total_jobs,
            r.pending_jobs == stats.pending_jobs,
            r.completed_jobs == stats.completed_jobs,
            r.total_lineages == total_lineages,
    {
        StatsResponse {
            total_jobs: stats.total_jobs,
            pending_jobs: stats.pending_jobs,
            completed_jobs: stats.completed_jobs,
            total_lineages,
        }
    }
}

impl ApiError {
    /// The HTTP status of the error: 500 for an internal error, 404 for a
    /// missing resource.
    pub fn status_code(&self) -> (r: u16)
        ensures
            r == (match self {
                ApiError::Internal(_) => 500u16,
                ApiError::NotFound(_) => 404u16,
            }),
    {
        match self {
            ApiError::Internal(_) => 500,
            ApiError::NotFound(_) => 404,
        }
    }

    /// The message sent with the error.
    pub fn message(&self) -> (r: &String)
        ensures
            r == (match self {
                ApiError::Internal(m) => m,
                ApiError::NotFound(m) => m,
            }),
    {
        match self {
            ApiError::Internal(m) => m,
            ApiError::NotFound(m) => m,
        }
    }
}

} // verus!
