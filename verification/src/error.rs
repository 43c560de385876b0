//! The errors a command or query can abort with. Every failing operation
//! leaves the store exactly as it found it.

use vstd::prelude::*;

verus! {

/// The kind of entity a [`ContractError::NotFound`] error refers to.
#[derive(Clone, Copy, Debug, PartialEq, Eq, Structural)]
pub enum EntityKind {
    Organization,
    SubscriptionPlan,
    Subscription,
}

/// Why a command or query was rejected.
#[derive(Clone, Copy, Debug, PartialEq, Eq, Structural)]
pub enum ContractError {
    /// A referenced record is absent. Organization ids are widened to `u64`.
    NotFound { kind: EntityKind, id: u64 },
    /// The caller is not the required owner or subscriber.
    Unauthorized,
    /// The plan forbids cancellation.
    NotCancelable,
    /// The subscription was already canceled.
    AlreadyCanceled,
    /// Cancellation was attempted past the subscription's expiration.
    AlreadyExpired,
    /// A subscribe was attempted while an active subscription already exists
    /// for that user and plan.
    AlreadySubscribed,
}

} // verus!
