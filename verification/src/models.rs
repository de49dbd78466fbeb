//! The data model: projects, study sessions, request payloads and the
//! typed failures every operation can report.

use vstd::prelude::*;

verus! {

/// A project that study time is booked on. `id` is assigned by the store on
/// creation and absent before insertion.
#[derive(Debug, Clone)]
pub struct Project {
    pub id: Option<i64>,
    pub name: String,
}

/// A study session: a time interval spent on a project. Timestamps are Unix
/// timestamps in whole seconds (UTC). `end_time == None` means the session
/// is active (currently running).
#[derive(Debug, Clone)]
pub struct StudySession {
    pub id: Option<i64>,
    pub project_id: i64,
    pub start_time: i64,
    pub end_time: Option<i64>,
    pub description: Option<String>,
}

/// Payload for creating or renaming a project.
#[derive(Debug, Clone)]
pub struct CreateProject {
    pub name: String,
}

/// Payload for starting a session by clock-in.
#[derive(Debug, Clone)]
pub struct CreateStudySession {
    pub project_id: i64,
    pub description: Option<String>,
}

/// Payload for inserting or rewriting a fully specified session: both
/// timestamps are supplied by the caller, so such a session is never active.
#[derive(Debug, Clone)]
pub struct ManualStudySession {
    pub project_id: i64,
    pub start_time: i64,
    pub end_time: i64,
    pub description: Option<String>,
}

/// The failures an operation can report.
#[derive(Debug, Clone, Copy, PartialEq, Eq, Structural)]
pub enum StoreError {
    /// An id had no matching row: zero rows affected or returned.
    NotFound,
    /// A duplicate project name or an invalid foreign key.
    ConstraintViolation,
    /// A session start was attempted while another session is active.
    Conflict,
    /// A path parameter could not be parsed.
    BadRequest,
    /// A store-level fault, including corrupt timestamp text found on read.
    StorageFailure,
}

impl StoreError {
    /// The HTTP status code each failure maps to.
    pub fn status_code(&self) -> (code: u16)
        ensures
            code == match self {
                StoreError::NotFound => 404u16,
                StoreError::ConstraintViolation => 500u16,
                StoreError::Conflict => 409u16,
                StoreError::BadRequest => 400u16,
                StoreError::StorageFailure => 500u16,
            },
    {
        match self {
            StoreError::NotFound => 404,
            StoreError::ConstraintViolation => 500,
            StoreError::Conflict => 409,
            StoreError::BadRequest => 400,
            StoreError::StorageFailure => 500,
        }
    }
}

} // verus!
