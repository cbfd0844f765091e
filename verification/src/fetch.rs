//! What a fetch can fail with, and what a worker does about it.
//!
//! The fetch itself is the driver's business. The rule here is the whole
//! retry policy: one failure kind is worth one second attempt through the
//! other protocol handler, and nothing is ever tried a third time.

use vstd::prelude::*;

verus! {

/// Why a fetch returned no page text.
#[derive(Debug, Clone, Copy, PartialEq, Eq, Structural)]
pub enum FetchError {
    /// The protocol handler in use cannot retrieve this URL.
    UnsupportedScheme,
    /// Connecting failed, the name did not resolve, or time ran out.
    Network,
    /// A response came, but its body is no valid text.
    Decode,
}

/// Which protocol handler a fetch goes through.
#[derive(Debug, Clone, Copy, PartialEq, Eq, Structural)]
pub enum Handler {
    /// The handler that every URL is tried with first.
    Primary,
    /// The handler for the one retry after `UnsupportedScheme`.
    Alternate,
}

/// What follows a failed fetch.
#[derive(Debug, Clone, Copy, PartialEq, Eq, Structural)]
pub enum Recovery {
    /// Fetch the same URL once more, through [`Handler::Alternate`].
    Retry,
    /// Record the failure under the given kind and move on.
    GiveUp(FetchError),
}

/// The retry policy. A first attempt that fails with `UnsupportedScheme` is
/// retried. Any other first failure is final and keeps its kind. A retry
/// that fails is final whatever it failed with, and counts as `Network`.
pub open spec fn recovery(retried: bool, error: FetchError) -> Recovery {
    if retried {
        Recovery::GiveUp(FetchError::Network)
    } else if error == FetchError::UnsupportedScheme {
        Recovery::Retry
    } else {
        Recovery::GiveUp(error)
    }
}

/// Decides what follows a fetch that failed with `error`; `retried` says
/// whether the failed attempt was already the retry.
pub fn after_failure(retried: bool, error: FetchError) -> (next: Recovery)
    ensures
        next == recovery(retried, error),
{
    if retried {
        Recovery::GiveUp(FetchError::Network)
    } else {
        match error {
            FetchError::UnsupportedScheme => Recovery::Retry,
            FetchError::Network => Recovery::GiveUp(FetchError::Network),
            FetchError::Decode => Recovery::GiveUp(FetchError::Decode),
        }
    }
}

/// The handler that an attempt goes through.
pub fn handler_for(retried: bool) -> (handler: Handler)
    ensures
        handler == (if retried {
            Handler::Alternate
        } else {
            Handler::Primary
        }),
{
    if retried {
        Handler::Alternate
    } else {
        Handler::Primary
    }
}

/// No URL is fetched more than twice: a retry is never followed by another,
/// and a failure that is given up on is never recorded as
/// `UnsupportedScheme`.
pub proof fn lemma_one_retry_at_most(first: FetchError, second: FetchError)
    ensures
        recovery(false, first) == Recovery::Retry <==> first == FetchError::UnsupportedScheme,
        recovery(true, second) == Recovery::GiveUp(FetchError::Network),
        forall|retried: bool, error: FetchError|
            recovery(retried, error) != Recovery::GiveUp(FetchError::UnsupportedScheme),
{
}

} // verus!
