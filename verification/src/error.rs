//! Error taxonomy of the relay and its mapping to on-wire status codes.

use vstd::prelude::*;

verus! {

/// A request was malformed.
#[derive(Clone, Copy, Debug, PartialEq, Eq, Structural)]
pub enum BadRequest {
    NoSessionId,
    InvalidPacket,
    InvalidNodeId,
    InvalidChallenge,
}

/// The sender is not entitled to what it asked for.
#[derive(Clone, Copy, Debug, PartialEq, Eq, Structural)]
pub enum Unauthorized {
    InvalidSessionId,
    SessionNotFound,
    InvalidChallenge,
}

/// A directory lookup came up empty.
#[derive(Clone, Copy, Debug, PartialEq, Eq, Structural)]
pub enum NotFound {
    Node,
    NodeBySlot,
}

/// An operation did not finish in time.
#[derive(Clone, Copy, Debug, PartialEq, Eq, Structural)]
pub enum Timeout {
    Ping,
}

/// The server itself failed while handling a request.
#[derive(Clone, Copy, Debug, PartialEq, Eq, Structural)]
pub enum InternalError {
    Send,
    Receiving,
    Encoding,
    Decoding,
    BindingSocket,
    RateLimiterInit,
    GettingSessionInfo,
}

/// Every failure a packet handler can report.
#[derive(Clone, Copy, Debug, PartialEq, Eq, Structural)]
pub enum Error {
    Undefined,
    BadRequest(BadRequest),
    Unauthorized(Unauthorized),
    NotFound(NotFound),
    Timeout(Timeout),
    Conflict,
    PayloadTooLarge,
    TooManyRequests,
    Internal(InternalError),
    GatewayTimeout,
}

/// The status enumeration carried inside response packets.
#[derive(Clone, Copy, Debug, PartialEq, Eq, Structural)]
pub enum StatusCode {
    Undefined,
    Okay,
    BadRequest,
    Unauthorized,
    NotFound,
    Timeout,
    Conflict,
    PayloadTooLarge,
    TooManyRequests,
    ServerError,
    GatewayTimeout,
}

pub type ServerResult<T> = Result<T, Error>;

/// The numeric value a status code takes on the wire.
pub open spec fn spec_status_value(code: StatusCode) -> u32 {
    match code {
        StatusCode::Undefined => 0,
        StatusCode::Okay => 200,
        StatusCode::BadRequest => 400,
        StatusCode::Unauthorized => 401,
        StatusCode::NotFound => 404,
        StatusCode::Timeout => 408,
        StatusCode::Conflict => 409,
        StatusCode::PayloadTooLarge => 413,
        StatusCode::TooManyRequests => 429,
        StatusCode::ServerError => 500,
        StatusCode::GatewayTimeout => 504,
    }
}

/// The status code a wire value denotes, if any.
pub open spec fn spec_status_of_value(v: u32) -> Option<StatusCode> {
    if v == 0 {
        Some(StatusCode::Undefined)
    } else if v == 200 {
        Some(StatusCode::Okay)
    } else if v == 400 {
        Some(StatusCode::BadRequest)
    } else if v == 401 {
        Some(StatusCode::Unauthorized)
    } else if v == 404 {
        Some(StatusCode::NotFound)
    } else if v == 408 {
        Some(StatusCode::Timeout)
    } else if v == 409 {
        Some(StatusCode::Conflict)
    } else if v == 413 {
        Some(StatusCode::PayloadTooLarge)
    } else if v == 429 {
        Some(StatusCode::TooManyRequests)
    } else if v == 500 {
        Some(StatusCode::ServerError)
    } else if v == 504 {
        Some(StatusCode::GatewayTimeout)
    } else {
        None
    }
}

pub fn status_value(code: StatusCode) -> (r: u32)
    ensures
        r == spec_status_value(code),
{
    match code {
        StatusCode::Undefined => 0,
        StatusCode::Okay => 200,
        StatusCode::BadRequest => 400,
        StatusCode::Unauthorized => 401,
        StatusCode::NotFound => 404,
        StatusCode::Timeout => 408,
        StatusCode::Conflict => 409,
        StatusCode::PayloadTooLarge => 413,
        StatusCode::TooManyRequests => 429,
        StatusCode::ServerError => 500,
        StatusCode::GatewayTimeout => 504,
    }
}

pub fn status_of_value(v: u32) -> (r: Option<StatusCode>)
    ensures
        r == spec_status_of_value(v),
{
    if v == 0 {
        Some(StatusCode::Undefined)
    } else if v == 200 {
        Some(StatusCode::Okay)
    } else if v == 400 {
        Some(StatusCode::BadRequest)
    } else if v == 401 {
        Some(StatusCode::Unauthorized)
    } else if v == 404 {
        Some(StatusCode::NotFound)
    } else if v == 408 {
        Some(StatusCode::Timeout)
    } else if v == 409 {
        Some(StatusCode::Conflict)
    } else if v == 413 {
        Some(StatusCode::PayloadTooLarge)
    } else if v == 429 {
        Some(StatusCode::TooManyRequests)
    } else if v == 500 {
        Some(StatusCode::ServerError)
    } else if v == 504 {
        Some(StatusCode::GatewayTimeout)
    } else {
        None
    }
}

/// A status value decodes back to the status code it was taken from.
pub proof fn lemma_status_value_round_trip(code: StatusCode)
    ensures
        spec_status_of_value(spec_status_value(code)) == Some(code),
{
}

/// The status code every error maps to on the wire.
pub open spec fn spec_error_status(e: Error) -> StatusCode {
    match e {
        Error::Undefined => StatusCode::Undefined,
        Error::BadRequest(_) => StatusCode::BadRequest,
        Error::Unauthorized(_) => StatusCode::Unauthorized,
        Error::NotFound(_) => StatusCode::NotFound,
        Error::Timeout(_) => StatusCode::Timeout,
        Error::Conflict => StatusCode::Conflict,
        Error::PayloadTooLarge => StatusCode::PayloadTooLarge,
        Error::TooManyRequests => StatusCode::TooManyRequests,
        Error::Internal(_) => StatusCode::ServerError,
        Error::GatewayTimeout => StatusCode::GatewayTimeout,
    }
}

pub fn error_status(e: Error) -> (r: StatusCode)
    ensures
        r == spec_error_status(e),
{
    match e {
        Error::Undefined => StatusCode::Undefined,
        Error::BadRequest(_) => StatusCode::BadRequest,
        Error::Unauthorized(_) => StatusCode::Unauthorized,
        Error::NotFound(_) => StatusCode::NotFound,
        Error::Timeout(_) => StatusCode::Timeout,
        Error::Conflict => StatusCode::Conflict,
        Error::PayloadTooLarge => StatusCode::PayloadTooLarge,
        Error::TooManyRequests => StatusCode::TooManyRequests,
        Error::Internal(_) => StatusCode::ServerError,
        Error::GatewayTimeout => StatusCode::GatewayTimeout,
    }
}

} // verus!
