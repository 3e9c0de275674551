//! The failures a ledger verb can report.

use vstd::prelude::*;

verus! {

/// Why a verb was refused. A refused verb leaves the ledger exactly as it was.
#[derive(Clone, Copy, Debug, PartialEq, Eq, Structural)]
pub enum LedgerError {
    /// The caller is not the owner of the ledger.
    NotAuthorized,
    /// A ledger instance already exists.
    AlreadyInitialized,
    /// The supply would exceed the cap, or a number would leave the 128-bit range.
    Overflow,
    /// More tokens were to be burned than exist.
    Underflow,
    /// The account holds fewer tokens than were to be taken from it.
    InsufficientBalance,
    /// The account has no entry in the account store.
    AccountNotRegistered,
    /// The account still holds tokens and cannot be closed.
    AccountNotEmpty,
    /// Sender and receiver of a transfer are the same account.
    SelfTransferNotAllowed,
    /// A transfer of zero tokens was asked for.
    ZeroAmount,
    /// The attached payment does not cover the storage the verb takes up.
    StorageDepositInsufficient,
    /// The attached payment is not the one unit that confirms the verb.
    InvalidAttachedDeposit,
}

} // verus!
