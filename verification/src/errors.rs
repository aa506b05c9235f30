//! Closed error taxonomies for the publish and confirmation paths, each with
//! an explicit mapping from variant to client-visible status code.

use vstd::prelude::*;

verus! {

/// Failure modes of the publish command path.
///
/// Delivery failures never appear here: they are contained in the worker and
/// are invisible to the publisher, whose request has already returned.
#[derive(Clone, Copy, Debug, PartialEq, Eq, Structural)]
pub enum PublishError {
    /// A required field of the payload (title, html content or text content)
    /// is empty.  Rejected before the idempotency guard is consulted, so no
    /// reservation is created for invalid input.
    InvalidInput,
    /// No actor context was supplied; the guard is never consulted.
    Unauthenticated,
    /// The store could not commit the publish transaction.  Everything is
    /// rolled back: no issue, no tasks, no reservation.
    StoreFailure,
}

impl PublishError {
    /// The status code a client sees for this variant.
    pub open spec fn status_spec(self) -> u16 {
        match self {
            PublishError::InvalidInput => 400,
            PublishError::Unauthenticated => 303,
            PublishError::StoreFailure => 500,
        }
    }

    /// Maps each variant to its client-visible status: a client error for an
    /// invalid payload, a redirect challenge for a missing actor, a server
    /// error for a failed commit.
    pub fn status_code(&self) -> (code: u16)
        ensures
            code == self.status_spec(),
    {
        match self {
            PublishError::InvalidInput => 400,
            PublishError::Unauthenticated => 303,
            PublishError::StoreFailure => 500,
        }
    }
}

/// Failure modes of the subscription confirmation path.
#[derive(Clone, Copy, Debug, PartialEq, Eq, Structural)]
pub enum ConfirmError {
    /// The store could not serve the lookup or commit the update.
    UnexpectedError,
    /// The supplied token is not associated with any subscriber.
    UnknownToken,
}

impl ConfirmError {
    /// The status code a client sees for this variant.
    pub open spec fn status_spec(self) -> u16 {
        match self {
            ConfirmError::UnexpectedError => 500,
            ConfirmError::UnknownToken => 401,
        }
    }

    /// Maps each variant to its client-visible status.
    pub fn status_code(&self) -> (code: u16)
        ensures
            code == self.status_spec(),
    {
        match self {
            ConfirmError::UnexpectedError => 500,
            ConfirmError::UnknownToken => 401,
        }
    }
}

} // verus!
