//! Why a request was refused.

use vstd::prelude::*;

verus! {

/// The kinds of refusal.
#[derive(Debug, Clone, Copy, PartialEq, Eq, Structural)]
pub enum Code {
    InvalidArgument,
    NotFound,
    Aborted,
    Unavailable,
}

/// A refusal, with a message for the client.
#[derive(Debug, PartialEq, Eq)]
pub struct Status {
    code: Code,
    message: String,
}

#[verifier::ext_equal]
pub struct StatusView {
    pub code: Code,
    pub message: Seq<char>,
}

impl View for Status {
    type V = StatusView;

    closed spec fn view(&self) -> StatusView {
        StatusView { code: self.code, message: self.message@ }
    }
}

impl Status {
    pub fn new(code: Code, message: String) -> (status: Self)
        ensures
            status@ == (StatusView { code, message: message@ }),
    {
        Status { code, message }
    }

    pub fn invalid_argument(message: &str) -> (status: Self)
        ensures
            status@ == (StatusView { code: Code::InvalidArgument, message: message@ }),
    {
        Status::new(Code::InvalidArgument, message.to_owned())
    }

    pub fn code(&self) -> (code: Code)
        ensures
            code == self@.code,
    {
        self.code
    }

    pub fn message(&self) -> (message: &str)
        ensures
            message@ == self@.message,
    {
        self.message.as_str()
    }
}

} // verus!
