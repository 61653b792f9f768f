//! The error taxonomy the library surfaces to callers.
use vstd::prelude::*;

verus! {

/// How an operation failed.
///
/// `Transient` covers rate limits, server errors and connection failures that
/// were retried and still failed; `Client` covers any other 4xx, which is
/// never retried; `Conflict` is a version conflict on a mutating call;
/// `NotFound` is a failed reference resolution; `Protocol` is a malformed or
/// looping server response, never retried; `Local` is a filesystem problem.
#[derive(Debug, Clone, PartialEq, Eq)]
pub enum ApiError {
    Transient { status: Option<u16>, message: String },
    Client { status: u16, message: String },
    Conflict,
    NotFound { message: String },
    Protocol { message: String },
    Local { message: String },
}

/// The advice shown on a version conflict: the caller must refetch the
/// resource and retry the update.
pub open spec fn conflict_text() -> Seq<char> {
    "409 Conflict: the page was modified concurrently. Fetch the latest version and retry your update."@
}

impl ApiError {
    /// Whether retrying the same call can help: only transient failures.
    pub fn is_transient(&self) -> (r: bool)
        ensures
            r == (self is Transient),
    {
        match self {
            ApiError::Transient { .. } => true,
            _ => false,
        }
    }

    /// One collapsed, human-readable line for the failure.
    pub fn message(&self) -> (r: String)
        ensures
            self matches ApiError::Transient { status, message } ==> r@ == message@,
            self matches ApiError::Client { status, message } ==> r@ == message@,
            self is Conflict ==> r@ == conflict_text(),
            self matches ApiError::NotFound { message } ==> r@ == message@,
            self matches ApiError::Protocol { message } ==> r@ == message@,
            self matches ApiError::Local { message } ==> r@ == message@,
    {
        match self {
            ApiError::Transient { message, .. } => message.clone(),
            ApiError::Client { message, .. } => message.clone(),
            ApiError::Conflict => String::from_str(
                "409 Conflict: the page was modified concurrently. Fetch the latest version and retry your update.",
            ),
            ApiError::NotFound { message } => message.clone(),
            ApiError::Protocol { message } => message.clone(),
            ApiError::Local { message } => message.clone(),
        }
    }
}

} // verus!
