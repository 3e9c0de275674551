//! The token as a state machine over mathematical values: what each verb
//! makes of a state, and when it refuses.

use crate::account_store::{
    balance_in, deposited, registered, unregistered, withdrawn, Balances, MAX_BALANCE,
};
use crate::balances::sum_of_balances;
use crate::error::LedgerError;
use crate::ledger::{burned_supply, minted_supply};
use crate::metadata::FungibleTokenMetadata;
use crate::storage::{settlement, ONE_YOCTO, STORAGE_PRICE_PER_BYTE};
use vstd::prelude::*;

verus! {

/// Everything the token knows, as plain mathematics.
pub struct TokenState {
    /// Each registered account with its balance.
    pub balances: Balances,
    /// The number of tokens that exist.
    pub total_supply: nat,
    /// The number of tokens that may exist at most.
    pub max_supply: nat,
    /// The one account that may mint, burn, move the cap and name a new owner.
    pub owner: Seq<char>,
    /// The descriptive record.
    pub metadata: FungibleTokenMetadata,
    /// The bytes of storage that one registered account takes up.
    pub bytes_per_account: nat,
}

/// A state after a verb, and what the caller gets back of the payment.
pub type Step = Result<(TokenState, nat), LedgerError>;

/// What a caller can ask of the token.
pub enum Verb {
    /// Name a new owner.
    SetOwner { new_owner: Seq<char> },
    /// Move the cap.
    ChangeMaxSupply { max_supply: nat },
    /// Create tokens in an account.
    Mint { id: Seq<char>, amount: nat },
    /// Destroy tokens of an account.
    Burn { id: Seq<char>, amount: nat },
    /// Move tokens of the caller to another account.
    Transfer { to: Seq<char>, amount: nat },
    /// Register an account.
    Register { id: Seq<char> },
    /// Close the caller's account.
    Unregister,
}

/// One call: who makes it, what payment comes with it, and what it asks for.
pub struct Call {
    pub caller: Seq<char>,
    pub attached: nat,
    pub verb: Verb,
}

impl TokenState {
    /// The state of a new token: no accounts, no tokens.
    pub open spec fn initial(
        owner: Seq<char>,
        metadata: FungibleTokenMetadata,
        max_supply: nat,
        bytes_per_account: nat,
    ) -> TokenState {
        TokenState {
            balances: Map::empty(),
            total_supply: 0,
            max_supply,
            owner,
            metadata,
            bytes_per_account,
        }
    }

    /// The balance of `id`: zero for an account that is not registered.
    pub open spec fn balance_of(self, id: Seq<char>) -> nat {
        balance_in(self.balances, id)
    }

    /// The bytes of storage in use: the same number for each registered account.
    pub open spec fn storage_usage(self) -> nat {
        self.balances.dom().len() * self.bytes_per_account
    }

    /// The supply is the sum of all balances, and every number fits its
    /// machine type.
    pub open spec fn consistent(self) -> bool {
        &&& self.balances.dom().finite()
        &&& self.total_supply == sum_of_balances(self.balances)
        &&& self.total_supply <= MAX_BALANCE
        &&& self.max_supply <= MAX_BALANCE
        &&& self.bytes_per_account <= u64::MAX
    }

    /// The supply is within the cap.
    pub open spec fn within_cap(self) -> bool {
        self.total_supply <= self.max_supply
    }

    /// Settles the storage bill of a verb that turns `self` into `next`: the
    /// bytes in use are read off both states, and the difference is charged
    /// to, or credited with, the payment.
    pub open spec fn settled(self, next: TokenState, attached: nat) -> Step {
        match settlement(
            self.storage_usage(),
            next.storage_usage(),
            STORAGE_PRICE_PER_BYTE as nat,
            attached,
        ) {
            Ok(refund) => Ok((next, refund)),
            Err(error) => Err(error),
        }
    }

    /// The owner names `new_owner` as the owner.
    pub open spec fn set_owner(
        self,
        caller: Seq<char>,
        attached: nat,
        new_owner: Seq<char>,
    ) -> Step {
        if caller != self.owner {
            Err(LedgerError::NotAuthorized)
        } else {
            self.settled(TokenState { owner: new_owner, ..self }, attached)
        }
    }

    /// The owner moves the cap. The payment must be exactly one yoctoNEAR.
    pub open spec fn change_max_supply(
        self,
        caller: Seq<char>,
        attached: nat,
        max_supply: nat,
    ) -> Step {
        if caller != self.owner {
            Err(LedgerError::NotAuthorized)
        } else if attached != ONE_YOCTO {
            Err(LedgerError::InvalidAttachedDeposit)
        } else {
            self.settled(TokenState { max_supply, ..self }, attached)
        }
    }

    /// The owner creates `amount` tokens in the account `id`, which is
    /// registered on the way if it was not. The supply is raised first, so that
    /// a mint that would pass the cap is refused before any balance is looked
    /// at.
    pub open spec fn mint(
        self,
        caller: Seq<char>,
        attached: nat,
        id: Seq<char>,
        amount: nat,
    ) -> Step {
        if caller != self.owner {
            Err(LedgerError::NotAuthorized)
        } else {
            match minted_supply(self.total_supply, self.max_supply, amount) {
                Err(error) => Err(error),
                Ok(total_supply) => match deposited(registered(self.balances, id), id, amount) {
                    Err(error) => Err(error),
                    Ok(balances) => self.settled(
                        TokenState { balances, total_supply, ..self },
                        attached,
                    ),
                },
            }
        }
    }

    /// The owner destroys `amount` tokens of the account `id`. The payment
    /// must be exactly one yoctoNEAR. The tokens leave the account first and
    /// the supply second.
    pub open spec fn burn(
        self,
        caller: Seq<char>,
        attached: nat,
        id: Seq<char>,
        amount: nat,
    ) -> Step {
        if caller != self.owner {
            Err(LedgerError::NotAuthorized)
        } else if attached != ONE_YOCTO {
            Err(LedgerError::InvalidAttachedDeposit)
        } else {
            match withdrawn(self.balances, id, amount) {
                Err(error) => Err(error),
                Ok(balances) => match burned_supply(self.total_supply, amount) {
                    Err(error) => Err(error),
                    Ok(total_supply) => self.settled(
                        TokenState { balances, total_supply, ..self },
                        attached,
                    ),
                },
            }
        }
    }

    /// The caller moves `amount` of its tokens to `to`, which must be another
    /// account, and the amount must not be zero. The tokens leave the sender
    /// first and reach the receiver second; both must be registered, and a
    /// transfer registers nobody.
    pub open spec fn transfer(
        self,
        caller: Seq<char>,
        attached: nat,
        to: Seq<char>,
        amount: nat,
    ) -> Step {
        if caller == to {
            Err(LedgerError::SelfTransferNotAllowed)
        } else if amount == 0 {
            Err(LedgerError::ZeroAmount)
        } else {
            match withdrawn(self.balances, caller, amount) {
                Err(error) => Err(error),
                Ok(taken) => match deposited(taken, to, amount) {
                    Err(error) => Err(error),
                    Ok(balances) => self.settled(TokenState { balances, ..self }, attached),
                },
            }
        }
    }

    /// Anyone registers the account `id` and pays for its storage.
    pub open spec fn register(self, attached: nat, id: Seq<char>) -> Step {
        self.settled(TokenState { balances: registered(self.balances, id), ..self }, attached)
    }

    /// The caller closes its own account, which must hold nothing. The payment
    /// must be exactly one yoctoNEAR.
    pub open spec fn unregister(self, caller: Seq<char>, attached: nat) -> Step {
        if attached != ONE_YOCTO {
            Err(LedgerError::InvalidAttachedDeposit)
        } else {
            match unregistered(self.balances, caller) {
                Err(error) => Err(error),
                Ok(balances) => self.settled(TokenState { balances, ..self }, attached),
            }
        }
    }

    /// What `call` makes of the state.
    pub open spec fn step(self, call: Call) -> Step {
        match call.verb {
            Verb::SetOwner { new_owner } => self.set_owner(call.caller, call.attached, new_owner),
            Verb::ChangeMaxSupply { max_supply } => self.change_max_supply(
                call.caller,
                call.attached,
                max_supply,
            ),
            Verb::Mint { id, amount } => self.mint(call.caller, call.attached, id, amount),
            Verb::Burn { id, amount } => self.burn(call.caller, call.attached, id, amount),
            Verb::Transfer { to, amount } => self.transfer(call.caller, call.attached, to, amount),
            Verb::Register { id } => self.register(call.attached, id),
            Verb::Unregister => self.unregister(call.caller, call.attached),
        }
    }

    /// The state after `call`: a call that is refused changes nothing.
    pub open spec fn after(self, call: Call) -> TokenState {
        match self.step(call) {
            Ok((next, _)) => next,
            Err(_) => self,
        }
    }

    /// The state after a whole history of calls, one after the other.
    pub open spec fn after_all(self, calls: Seq<Call>) -> TokenState
        decreases calls.len(),
    {
        if calls.len() == 0 {
            self
        } else {
            self.after_all(calls.drop_last()).after(calls.last())
        }
    }

    /// `call` goes through and lowers the cap under the supply that exists.
    pub open spec fn undercuts_supply(self, call: Call) -> bool {
        &&& call.verb matches Verb::ChangeMaxSupply { max_supply }
        &&& max_supply < self.total_supply
        &&& self.step(call) is Ok
    }
}

} // verus!
