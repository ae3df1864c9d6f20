use vstd::prelude::*;
use crate::json_value::Json;

verus! {

/// Status of a `Result` or `Status` message.
#[derive(Clone, Copy, Debug, PartialEq, Eq, Structural)]
pub enum MessageStatus {
    Continue,
    Okay,
    Accepted,
    PartialComplete,
    Complete,
    Partial,
    Redirected,
    BadRequest,
    Unauthorized,
    PaymentRequired,
    Forbidden,
    NotFound,
    NotAllowed,
    Timeout,
    ExpFailed,
    InternalServerError,
    NotImplemented,
    ServiceUnavailable,
    VersionNotSupported,
}

/// The numeric code of each status.
pub open spec fn status_code(s: MessageStatus) -> u16 {
    match s {
        MessageStatus::Continue => 100,
        MessageStatus::Okay => 200,
        MessageStatus::Accepted => 202,
        MessageStatus::PartialComplete => 204,
        MessageStatus::Complete => 205,
        MessageStatus::Partial => 206,
        MessageStatus::Redirected => 307,
        MessageStatus::BadRequest => 400,
        MessageStatus::Unauthorized => 401,
        MessageStatus::PaymentRequired => 402,
        MessageStatus::Forbidden => 403,
        MessageStatus::NotFound => 404,
        MessageStatus::NotAllowed => 405,
        MessageStatus::Timeout => 408,
        MessageStatus::ExpFailed => 417,
        MessageStatus::InternalServerError => 500,
        MessageStatus::NotImplemented => 501,
        MessageStatus::ServiceUnavailable => 503,
        MessageStatus::VersionNotSupported => 505,
    }
}

/// The reason phrase of each status.
pub open spec fn status_label(s: MessageStatus) -> Seq<char> {
    match s {
        MessageStatus::Continue => "Continue"@,
        MessageStatus::Okay => "OK"@,
        MessageStatus::Accepted => "Accepted"@,
        MessageStatus::PartialComplete => "Partial Complete"@,
        MessageStatus::Complete => "Complete"@,
        MessageStatus::Partial => "Partial"@,
        MessageStatus::Redirected => "Redirected"@,
        MessageStatus::BadRequest => "Bad Request"@,
        MessageStatus::Unauthorized => "Unauthorized"@,
        MessageStatus::PaymentRequired => "Payment Required"@,
        MessageStatus::Forbidden => "Forbidden"@,
        MessageStatus::NotFound => "Not Found"@,
        MessageStatus::NotAllowed => "Method Not Allowed"@,
        MessageStatus::Timeout => "Timeout"@,
        MessageStatus::ExpFailed => "Expectation Failed"@,
        MessageStatus::InternalServerError => "Internal Server Error"@,
        MessageStatus::NotImplemented => "Not Implemented"@,
        MessageStatus::ServiceUnavailable => "Service Unavailable"@,
        MessageStatus::VersionNotSupported => "Version Not Supported"@,
    }
}

impl MessageStatus {
    pub fn label(&self) -> (r: &'static str)
        ensures
            r@ == status_label(*self),
    {
        match self {
            MessageStatus::Continue => "Continue",
            MessageStatus::Okay => "OK",
            MessageStatus::Accepted => "Accepted",
            MessageStatus::PartialComplete => "Partial Complete",
            MessageStatus::Complete => "Complete",
            MessageStatus::Partial => "Partial",
            MessageStatus::Redirected => "Redirected",
            MessageStatus::BadRequest => "Bad Request",
            MessageStatus::Unauthorized => "Unauthorized",
            MessageStatus::PaymentRequired => "Payment Required",
            MessageStatus::Forbidden => "Forbidden",
            MessageStatus::NotFound => "Not Found",
            MessageStatus::NotAllowed => "Method Not Allowed",
            MessageStatus::Timeout => "Timeout",
            MessageStatus::ExpFailed => "Expectation Failed",
            MessageStatus::InternalServerError => "Internal Server Error",
            MessageStatus::NotImplemented => "Not Implemented",
            MessageStatus::ServiceUnavailable => "Service Unavailable",
            MessageStatus::VersionNotSupported => "Version Not Supported",
        }
    }

    pub fn code(&self) -> (r: u16)
        ensures
            r == status_code(*self),
    {
        match self {
            MessageStatus::Continue => 100,
            MessageStatus::Okay => 200,
            MessageStatus::Accepted => 202,
            MessageStatus::PartialComplete => 204,
            MessageStatus::Complete => 205,
            MessageStatus::Partial => 206,
            MessageStatus::Redirected => 307,
            MessageStatus::BadRequest => 400,
            MessageStatus::Unauthorized => 401,
            MessageStatus::PaymentRequired => 402,
            MessageStatus::Forbidden => 403,
            MessageStatus::NotFound => 404,
            MessageStatus::NotAllowed => 405,
            MessageStatus::Timeout => 408,
            MessageStatus::ExpFailed => 417,
            MessageStatus::InternalServerError => 500,
            MessageStatus::NotImplemented => 501,
            MessageStatus::ServiceUnavailable => 503,
            MessageStatus::VersionNotSupported => 505,
        }
    }

    /// Codes from `BadRequest` up end a request with a failure.
    pub fn is_error(&self) -> (r: bool)
        ensures
            r == (status_code(*self) >= 400),
    {
        self.code() >= 400
    }
}

/// Kind of a message.
#[derive(Clone, Copy, Debug, PartialEq, Eq, Structural)]
pub enum MessageType {
    Connect,
    Request,
    Result,
    Status,
    Disconnect,
}

/// An API call: method name and parameters.
#[derive(Debug)]
pub struct Method {
    pub method: String,
    pub params: Vec<Json>,
}

/// What a message carries.
#[derive(Debug)]
pub enum Payload {
    Method(Method),
    Result(MessageStatus, Json),
    Status(MessageStatus),
    NoPayload,
}

} // verus!
