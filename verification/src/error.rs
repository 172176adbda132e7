//! The error kinds that reach the wire.

use vstd::prelude::*;
use crate::text::concat;

verus! {

/// An error of the server core. Each variant carries its detail text.
#[derive(Debug)]
pub enum AppError {
    /// A persistence fault.
    Database(String),
    /// The upstream AI service failed or answered nonsense.
    OpenCode(String),
    /// An unknown journal, block, work item, approval or participant.
    NotFound(String),
    /// A malformed or illegal request.
    BadRequest(String),
    /// A broken invariant, such as a stored row with an unreadable id.
    Internal(String),
}

/// What the functions of the server core return.
pub type Result<T> = std::result::Result<T, AppError>;

/// The HTTP status that an error is answered with.
pub open spec fn status_of(e: AppError) -> u16 {
    match e {
        AppError::Database(_) => 500,
        AppError::OpenCode(_) => 502,
        AppError::NotFound(_) => 404,
        AppError::BadRequest(_) => 400,
        AppError::Internal(_) => 500,
    }
}

/// The body that an error is answered with. Database details stay inside.
pub open spec fn body_of(e: AppError) -> Seq<char> {
    match e {
        AppError::Database(_) => "Database error"@,
        AppError::OpenCode(d) => "OpenCode error: "@ + d@,
        AppError::NotFound(d) => d@,
        AppError::BadRequest(d) => d@,
        AppError::Internal(d) => d@,
    }
}

/// The human-readable message of an error.
pub open spec fn message_of(e: AppError) -> Seq<char> {
    match e {
        AppError::Database(d) => "Database error: "@ + d@,
        AppError::OpenCode(d) => "OpenCode error: "@ + d@,
        AppError::NotFound(d) => "Not found: "@ + d@,
        AppError::BadRequest(d) => "Bad request: "@ + d@,
        AppError::Internal(d) => "Internal error: "@ + d@,
    }
}

impl AppError {
    /// The message shown to a client: the kind, a colon and the detail.
    pub fn to_string(&self) -> (r: String)
        ensures
            r@ == message_of(*self),
    {
        match self {
            AppError::Database(d) => concat("Database error: ", d.as_str()),
            AppError::OpenCode(d) => concat("OpenCode error: ", d.as_str()),
            AppError::NotFound(d) => concat("Not found: ", d.as_str()),
            AppError::BadRequest(d) => concat("Bad request: ", d.as_str()),
            AppError::Internal(d) => concat("Internal error: ", d.as_str()),
        }
    }

    /// The HTTP status and body that answer a plain request which failed
    /// with this error.
    pub fn into_response(self) -> (r: (u16, String))
        ensures
            r.0 == status_of(self),
            r.1@ == body_of(self),
    {
        match self {
            AppError::Database(_) => (500, crate::text::owned("Database error")),
            AppError::OpenCode(d) => (502, concat("OpenCode error: ", d.as_str())),
            AppError::NotFound(d) => (404, d),
            AppError::BadRequest(d) => (400, d),
            AppError::Internal(d) => (500, d),
        }
    }
}

} // verus!
