//! The coordination server's decisions: job bookkeeping, selection and
//! breeding of genomes, checkpoint files and API responses.

pub mod job_manager;
pub mod evolution;
pub mod checkpoint;
pub mod api;
