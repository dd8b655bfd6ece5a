//! Error taxonomy: fatal configuration and construction errors, and
//! resolution errors that mark programming-contract violations.  External
//! failures (a rejected broadcast, an unavailable node) are the caller's to
//! retry and never reach this crate.

use vstd::prelude::*;

verus! {

/// Why pool construction was refused.  The first four are configuration
/// errors, rejected before any tree work begins; the last one rejects a
/// single taproot node that no covenant leaf would make spendable.
#[derive(Clone, Copy, Debug, PartialEq, Eq, Structural)]
pub enum BuildError {
    /// Fewer than 3 participants.
    TooFewUsers,
    /// The per-user amount does not exceed fee plus dust.
    ShareTooSmall,
    /// The pooled total would not fit in a 64-bit satoshi amount.
    TotalOverflow,
    /// The accumulated per-step fees would exceed one user's share, so a
    /// payment deep in the tree would be negative.
    FeesExceedShare,
    /// A taproot node was requested with no script leaves.
    EmptyLeafSet,
}

/// Why a settlement step was refused.  Each of these is a usage error on the
/// caller's side; settlement state is left unchanged.
#[derive(Clone, Copy, Debug, PartialEq, Eq, Structural)]
pub enum ResolveError {
    /// No pre-built node is keyed by the given exit path.
    UnknownPath,
    /// The exiting user's index is out of range.
    UnknownUser,
    /// The exiting user is already part of the exit path.
    AlreadyExited,
    /// The pool has already been settled down to its terminal layer.
    AlreadySettled,
}

} // verus!
