//! The ways in which a request can fail.

use vstd::prelude::*;

verus! {

/// Why the gateway refused or could not carry out a request.
#[derive(Clone, Copy, Debug, PartialEq, Eq, Structural)]
pub enum GatewayError {
    /// The path does not resolve, or the entry is gone.
    NotFound,
    /// The path leads out of the root directory.
    Forbidden,
    /// The request asks for what the entry cannot give.
    BadRequest,
    /// The byte range cannot be served from a file of this size.
    RangeNotSatisfiable,
    /// The file system refused the change.
    Conflict,
    /// The file system failed.
    InternalError,
}

impl GatewayError {
    /// The HTTP status that stands for the error.
    pub open spec fn status_spec(self) -> u16 {
        match self {
            GatewayError::NotFound => 404,
            GatewayError::Forbidden => 403,
            GatewayError::BadRequest => 400,
            GatewayError::RangeNotSatisfiable => 416,
            GatewayError::Conflict => 409,
            GatewayError::InternalError => 500,
        }
    }

    /// The HTTP status that stands for the error.
    pub fn status(&self) -> (code: u16)
        ensures
            code == self.status_spec(),
    {
        match self {
            GatewayError::NotFound => 404,
            GatewayError::Forbidden => 403,
            GatewayError::BadRequest => 400,
            GatewayError::RangeNotSatisfiable => 416,
            GatewayError::Conflict => 409,
            GatewayError::InternalError => 500,
        }
    }
}

} // verus!
