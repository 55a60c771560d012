//! The status of a response, and the head of the response that a request
//! gets.

use crate::error::ProcessingError;
use crate::route::ImageType;
use vstd::prelude::*;

verus! {

/// The status of a response.
#[derive(Clone, Copy, Debug, PartialEq, Eq, Structural)]
pub enum Status {
    Success,
    BadRequest,
    NotFound,
    MethodNotAllowed,
    InternalServerError,
}

/// The head of a response.
#[derive(Clone, Copy, Debug, PartialEq, Eq, Structural)]
pub struct ResponseHead {
    pub status: Status,
    /// The format of the image in the body; `None` where the body is the
    /// status code as text.
    pub image: Option<ImageType>,
    /// Whether the response may be read from any origin.
    pub any_origin: bool,
}

/// The code of a status.
pub open spec fn code_of(status: Status) -> u16 {
    match status {
        Status::Success => 200,
        Status::BadRequest => 400,
        Status::NotFound => 404,
        Status::MethodNotAllowed => 405,
        Status::InternalServerError => 500,
    }
}

/// The head of the response to a request that came to `outcome`: an image
/// is sent with success and may be read from any origin; an error that
/// names a status is answered with it; any other error is an internal
/// error.
pub open spec fn head_of(outcome: Result<ImageType, ProcessingError>) -> ResponseHead {
    match outcome {
        Ok(format) => ResponseHead { status: Status::Success, image: Some(format), any_origin: true },
        Err(ProcessingError::HttpError(status)) => ResponseHead {
            status,
            image: None,
            any_origin: false,
        },
        Err(_) => ResponseHead {
            status: Status::InternalServerError,
            image: None,
            any_origin: false,
        },
    }
}

impl Status {
    /// The code of the status.
    pub fn code(&self) -> (r: u16)
        ensures
            r == code_of(*self),
    {
        match self {
            Status::Success => 200,
            Status::BadRequest => 400,
            Status::NotFound => 404,
            Status::MethodNotAllowed => 405,
            Status::InternalServerError => 500,
        }
    }

    /// The code of the status in decimal digits: the body of a response
    /// that carries no image.
    pub fn as_str(&self) -> (r: &'static str)
        ensures
            r@ == match *self {
                Status::Success => "200"@,
                Status::BadRequest => "400"@,
                Status::NotFound => "404"@,
                Status::MethodNotAllowed => "405"@,
                Status::InternalServerError => "500"@,
            },
    {
        match self {
            Status::Success => "200",
            Status::BadRequest => "400",
            Status::NotFound => "404",
            Status::MethodNotAllowed => "405",
            Status::InternalServerError => "500",
        }
    }
}

/// The head of the response to a request that came to `outcome`.
pub fn response_head(outcome: Result<ImageType, ProcessingError>) -> (r: ResponseHead)
    ensures
        r == head_of(outcome),
{
    match outcome {
        Ok(format) => ResponseHead { status: Status::Success, image: Some(format), any_origin: true },
        Err(ProcessingError::HttpError(status)) => ResponseHead {
            status,
            image: None,
            any_origin: false,
        },
        Err(_) => ResponseHead {
            status: Status::InternalServerError,
            image: None,
            any_origin: false,
        },
    }
}

} // verus!
