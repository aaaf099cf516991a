//! The status of a failed call: a code and a message.

use vstd::prelude::*;

verus! {

/// The status codes of gRPC.
#[derive(Clone, Copy, Debug, PartialEq, Eq, Structural)]
pub enum Code {
    Success,
    Cancelled,
    Unknown,
    InvalidArgument,
    DeadlineExceeded,
    NotFound,
    AlreadyExists,
    PermissionDenied,
    ResourceExhausted,
    FailedPrecondition,
    Aborted,
    OutOfRange,
    Unimplemented,
    Internal,
    Unavailable,
    DataLoss,
    Unauthenticated,
}

/// Why a call failed.
#[derive(Debug)]
pub struct Status {
    pub code: Code,
    pub message: String,
}

/// A status as a mathematical value.
pub struct StatusView {
    pub code: Code,
    pub message: Seq<char>,
}

impl View for Status {
    type V = StatusView;

    open spec fn view(&self) -> StatusView {
        StatusView { code: self.code, message: self.message@ }
    }
}

/// The status with this code and message.
pub open spec fn status(code: Code, message: Seq<char>) -> StatusView {
    StatusView { code, message }
}

/// A stream's failure, if it had one.
pub open spec fn failure_view(failure: Option<Status>) -> Option<StatusView> {
    match failure {
        Some(s) => Some(s@),
        None => None,
    }
}

impl Clone for Status {
    fn clone(&self) -> (s: Status)
        ensures
            s == *self,
    {
        Status { code: self.code, message: self.message.clone() }
    }
}

impl Status {
    pub fn new(code: Code, message: String) -> (s: Status)
        ensures
            s.code == code,
            s.message == message,
    {
        Status { code, message }
    }

    pub fn invalid_argument(message: String) -> (s: Status)
        ensures
            s@ == status(Code::InvalidArgument, message@),
    {
        Status { code: Code::InvalidArgument, message }
    }

    pub fn not_found(message: String) -> (s: Status)
        ensures
            s@ == status(Code::NotFound, message@),
    {
        Status { code: Code::NotFound, message }
    }

    pub fn internal(message: String) -> (s: Status)
        ensures
            s@ == status(Code::Internal, message@),
    {
        Status { code: Code::Internal, message }
    }

    pub fn unimplemented(message: String) -> (s: Status)
        ensures
            s@ == status(Code::Unimplemented, message@),
    {
        Status { code: Code::Unimplemented, message }
    }

    pub fn deadline_exceeded(message: String) -> (s: Status)
        ensures
            s@ == status(Code::DeadlineExceeded, message@),
    {
        Status { code: Code::DeadlineExceeded, message }
    }

    pub fn unavailable(message: String) -> (s: Status)
        ensures
            s@ == status(Code::Unavailable, message@),
    {
        Status { code: Code::Unavailable, message }
    }
}

} // verus!
