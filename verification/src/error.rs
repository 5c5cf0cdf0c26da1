//! The reasons for which an operation is refused.

use vstd::prelude::*;

verus! {

/// Why a call was refused. A refused call changes nothing.
#[derive(Clone, Copy, Debug, PartialEq, Eq, Structural)]
pub enum Error {
    /// The caller lacks the role that the operation asks for.
    Unauthorized,
    /// Lists that must have one common length do not.
    ArgumentShapeMismatch,
    /// A token id that was to be created is already in the ledger, or is named
    /// twice in one batch.
    DuplicateTokenId,
    /// The operation names a token id that is not in the ledger.
    UnknownTokenId,
    /// The token is not held by the account that the call names as its holder.
    NotOwnedByCaller,
    /// An unknown commission mode, or an update with an empty account or rate.
    InvalidArgument,
    /// The recipient did not pass the identity check.
    RecipientNotVerified,
}

} // verus!
