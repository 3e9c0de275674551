//! What the host tells a verb about its call, and what a verb hands back.

use crate::account_id::AccountId;
use vstd::prelude::*;

verus! {

/// The facts of one call: who makes it, and what payment comes with it.
#[derive(Debug, PartialEq, Eq)]
pub struct CallContext {
    /// The account that calls.
    pub predecessor_account_id: AccountId,
    /// The payment attached to the call, in yoctoNEAR.
    pub attached_deposit: u128,
}

/// A notice of something that can no longer be undone.
#[derive(Debug, PartialEq, Eq)]
pub enum Event {
    /// An account was closed while it held `balance`.
    AccountClosed { account_id: AccountId, balance: u128 },
    /// `amount` tokens of an account were destroyed.
    TokensBurned { account_id: AccountId, amount: u128 },
}

/// What a verb that went through leaves for the host to do: pay `refund` back
/// to the caller and, if there is one, publish the event.
#[derive(Debug, PartialEq, Eq)]
pub struct Receipt {
    /// The part of the payment that goes back to the caller, together with
    /// the price of any storage that the verb released.
    pub refund: u128,
    /// The notice to publish, if the verb calls for one.
    pub event: Option<Event>,
}

impl Event {
    /// The event is the closing of `account` while it held `balance`.
    pub open spec fn is_account_closed(&self, account: Seq<char>, balance: nat) -> bool {
        self matches Event::AccountClosed { account_id, balance: held } && account_id@ == account
            && held == balance
    }

    /// The event is the burning of `amount` tokens of `account`.
    pub open spec fn is_tokens_burned(&self, account: Seq<char>, amount: nat) -> bool {
        self matches Event::TokensBurned { account_id, amount: burned } && account_id@ == account
            && burned == amount
    }
}

impl Receipt {
    /// The receipt returns `refund` and carries no event.
    pub open spec fn is_plain(&self, refund: nat) -> bool {
        self.refund == refund && self.event is None
    }
}

} // verus!
