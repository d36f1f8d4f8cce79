//! The errors the HTTP API answers with.

use vstd::prelude::*;
use crate::text::{chars_of, string_of};

verus! {

/// The body of an error response: `{ "error": "..." }`.
#[derive(Debug)]
pub struct ApiError {
    pub error: String,
}

/// The HTTP status of a failed request.
#[derive(Debug, Clone, Copy, PartialEq, Eq, Structural)]
pub enum ApiStatus {
    BadRequest,
    NotFound,
    Conflict,
    InternalServerError,
    BadGateway,
}

/// A failed request: its status and its body.
#[derive(Debug)]
pub struct ApiFailure {
    pub status: ApiStatus,
    pub body: ApiError,
}

/// The numeric HTTP code of a status.
pub open spec fn status_code_spec(s: ApiStatus) -> u16 {
    match s {
        ApiStatus::BadRequest => 400,
        ApiStatus::NotFound => 404,
        ApiStatus::Conflict => 409,
        ApiStatus::InternalServerError => 500,
        ApiStatus::BadGateway => 502,
    }
}

impl ApiStatus {
    /// The numeric HTTP code of this status.
    pub fn code(&self) -> (r: u16)
        ensures
            r == status_code_spec(*self),
    {
        match self {
            ApiStatus::BadRequest => 400,
            ApiStatus::NotFound => 404,
            ApiStatus::Conflict => 409,
            ApiStatus::InternalServerError => 500,
            ApiStatus::BadGateway => 502,
        }
    }
}

/// Whether a failure has the given status and message.
pub open spec fn is_failure(f: ApiFailure, status: ApiStatus, msg: Seq<char>) -> bool {
    f.status == status && f.body.error@ == msg
}

/// A failure with the given status and message.
pub fn err(status: ApiStatus, msg: &str) -> (r: ApiFailure)
    ensures
        is_failure(r, status, msg@),
{
    ApiFailure { status, body: ApiError { error: string_of(chars_of(msg).as_slice()) } }
}

/// A failure of the server itself (500).
pub fn internal(msg: &str) -> (r: ApiFailure)
    ensures
        is_failure(r, ApiStatus::InternalServerError, msg@),
{
    err(ApiStatus::InternalServerError, msg)
}

/// A request that is not valid (400).
pub fn bad_request(msg: &str) -> (r: ApiFailure)
    ensures
        is_failure(r, ApiStatus::BadRequest, msg@),
{
    err(ApiStatus::BadRequest, msg)
}

/// A request for something that does not exist (404).
pub fn not_found(msg: &str) -> (r: ApiFailure)
    ensures
        is_failure(r, ApiStatus::NotFound, msg@),
{
    err(ApiStatus::NotFound, msg)
}

} // verus!
