//! The error taxonomy of the engine.
//!
//! `BadRequest` and `NotFound` are user-correctable and carry an explanatory
//! message; `InternalError` covers gateway failures and arithmetic overflow
//! when converting to minor currency units; `Unauthorized` is the
//! authentication collaborator's tier; `DatabaseError`, `ConfigError` and
//! `Conflict` round out the tiers the surrounding application maps to HTTP
//! statuses.

use vstd::prelude::*;

verus! {

#[derive(Debug)]
pub enum AppError {
    DatabaseError(String),
    ConfigError(String),
    InternalError(String),
    NotFound(String),
    BadRequest(String),
    Conflict(String),
    Unauthorized(String),
}

impl AppError {
    /// The explanatory message carried by the error.
    pub fn message(&self) -> (r: &String)
        ensures
            r@ == self.spec_message(),
    {
        match self {
            AppError::DatabaseError(m) => m,
            AppError::ConfigError(m) => m,
            AppError::InternalError(m) => m,
            AppError::NotFound(m) => m,
            AppError::BadRequest(m) => m,
            AppError::Conflict(m) => m,
            AppError::Unauthorized(m) => m,
        }
    }

    pub open spec fn spec_message(&self) -> Seq<char> {
        match self {
            AppError::DatabaseError(m) => m@,
            AppError::ConfigError(m) => m@,
            AppError::InternalError(m) => m@,
            AppError::NotFound(m) => m@,
            AppError::BadRequest(m) => m@,
            AppError::Conflict(m) => m@,
            AppError::Unauthorized(m) => m@,
        }
    }

    pub fn is_bad_request(&self) -> (r: bool)
        ensures
            r == self is BadRequest,
    {
        matches!(self, AppError::BadRequest(_))
    }

    pub fn is_not_found(&self) -> (r: bool)
        ensures
            r == self is NotFound,
    {
        matches!(self, AppError::NotFound(_))
    }
}

} // verus!
