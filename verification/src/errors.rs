//! Error taxonomy of the exchange: every rejected operation names its cause.

use vstd::prelude::*;

verus! {

/// Reasons an exchange operation is rejected. Every precondition check
/// happens before any mutation, so a rejected operation changes nothing.
#[derive(Clone, Copy, Debug, PartialEq, Eq, Structural)]
pub enum ErrorCode {
    /// A supplied amount is zero.
    InvalidAmount,
    /// The paying account holds fewer units than the transfer asks for.
    InsufficientBalance,
    /// The caller is not the party the operation is reserved to.
    Unauthorized,
    /// A supplied asset type does not match what the offer records.
    InvalidMint,
    /// The user's offer counter would wrap past its maximum.
    CounterOverflow,
    /// `create_offer` was invoked before `initialize_user`.
    UninitializedUserProfile,
    /// `initialize_user` was invoked for a user that already has a profile.
    AlreadyInitialized,
    /// The addressed offer does not exist (never created, or already
    /// settled or cancelled).
    OfferNotFound,
}

} // verus!
