//! HTTP statuses and the error a handler answers with.

use vstd::prelude::*;

verus! {

/// The HTTP statuses this service answers with.
#[derive(Clone, Copy, Debug, PartialEq, Eq, Structural)]
pub enum Status {
    Success,
    NoContent,
    BadRequest,
    Unauthorized,
    Forbidden,
    NotFound,
    InternalServerError,
    BadGateway,
    ServiceUnavailable,
}

/// The numeric code of a status.
pub open spec fn status_code(s: Status) -> u16 {
    match s {
        Status::Success => 200,
        Status::NoContent => 204,
        Status::BadRequest => 400,
        Status::Unauthorized => 401,
        Status::Forbidden => 403,
        Status::NotFound => 404,
        Status::InternalServerError => 500,
        Status::BadGateway => 502,
        Status::ServiceUnavailable => 503,
    }
}

impl Status {
    /// The numeric HTTP code.
    pub fn code(&self) -> (c: u16)
        ensures
            c == status_code(*self),
    {
        match self {
            Status::Success => 200,
            Status::NoContent => 204,
            Status::BadRequest => 400,
            Status::Unauthorized => 401,
            Status::Forbidden => 403,
            Status::NotFound => 404,
            Status::InternalServerError => 500,
            Status::BadGateway => 502,
            Status::ServiceUnavailable => 503,
        }
    }
}

/// A refused request: its status and the message sent with it.
#[derive(Clone, Debug, PartialEq, Eq)]
pub struct ApiError {
    pub status: Status,
    pub message: String,
}

impl ApiError {
    /// An error with the given status and message.
    pub fn new(status: Status, message: &str) -> (e: ApiError)
        ensures
            e.status == status,
            e.message@ == message@,
    {
        ApiError { status, message: message.to_owned() }
    }
}

} // verus!
