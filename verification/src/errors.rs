//! Errors: a code for programs and a message for people.

use vstd::prelude::*;
use vstd::string::*;

verus! {

/// What kind of error it is.
#[derive(Clone, Copy, Debug, PartialEq, Eq, Structural)]
pub enum ErrorCode {
    Http,
    InvalidInput,
    Io,
    Locked,
    NoSuchSlot,
    ProviderNotInstalled,
    RefreshDenied,
    TokenDead,
    Unsupported,
}

/// An error with its message.
#[derive(Debug)]
pub struct SwapdError {
    pub code: ErrorCode,
    pub message: String,
}

impl SwapdError {
    /// An error of a code, with a message.
    pub fn new(code: ErrorCode, message: String) -> (r: SwapdError)
        ensures
            r.code == code,
            r.message@ == message@,
    {
        SwapdError { code, message }
    }
}

/// Whether an error has a code and a message.
pub open spec fn is_error(e: SwapdError, code: ErrorCode, message: Seq<char>) -> bool {
    e.code == code && e.message@ == message
}

/// An error about a value, `what` before it and `rest` behind it.
pub fn error_about(code: ErrorCode, what: &str, value: &str, rest: &str) -> (r: SwapdError)
    ensures
        is_error(r, code, what@ + value@ + rest@),
{
    SwapdError { code, message: what.to_owned().concat(value).concat(rest) }
}

} // verus!
