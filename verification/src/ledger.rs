//! The supply counter and its cap.

use crate::account_store::MAX_BALANCE;
use crate::error::LedgerError;
use vstd::prelude::*;

verus! {

/// The supply after `amount` new tokens: refused where it would pass the cap
/// or leave the 128-bit range.
pub open spec fn minted_supply(total: nat, cap: nat, amount: nat) -> Result<nat, LedgerError> {
    if total + amount > cap || total + amount > MAX_BALANCE {
        Err(LedgerError::Overflow)
    } else {
        Ok(total + amount)
    }
}

/// The supply after `amount` tokens are gone: refused where fewer exist.
pub open spec fn burned_supply(total: nat, amount: nat) -> Result<nat, LedgerError> {
    if amount > total {
        Err(LedgerError::Underflow)
    } else {
        Ok((total - amount) as nat)
    }
}

/// How many tokens exist, and how many may exist at most.
#[derive(Clone, Copy, Debug, PartialEq, Eq)]
pub struct Ledger {
    total_supply: u128,
    max_supply: u128,
}

impl Ledger {
    /// The number of tokens that exist.
    pub closed spec fn total(&self) -> nat {
        self.total_supply as nat
    }

    /// The number of tokens that may exist at most.
    pub closed spec fn cap(&self) -> nat {
        self.max_supply as nat
    }

    /// Both numbers are 128-bit values.
    pub proof fn lemma_in_range(&self)
        ensures
            self.total() <= MAX_BALANCE,
            self.cap() <= MAX_BALANCE,
    {
    }

    /// A ledger without tokens, capped at `max_supply`.
    pub fn new(max_supply: u128) -> (ledger: Ledger)
        ensures
            ledger.total() == 0,
            ledger.cap() == max_supply,
    {
        Ledger { total_supply: 0, max_supply }
    }

    /// A ledger that counts `total_supply` tokens, capped at `max_supply`.
    pub fn restore(total_supply: u128, max_supply: u128) -> (ledger: Ledger)
        ensures
            ledger.total() == total_supply,
            ledger.cap() == max_supply,
    {
        Ledger { total_supply, max_supply }
    }

    /// The number of tokens that exist.
    pub fn total_supply(&self) -> (total: u128)
        ensures
            total == self.total(),
    {
        self.total_supply
    }

    /// The number of tokens that may exist at most.
    pub fn max_supply(&self) -> (cap: u128)
        ensures
            cap == self.cap(),
    {
        self.max_supply
    }

    /// Counts `amount` new tokens and returns the new supply.
    pub fn mint(&mut self, amount: u128) -> (minted: Result<u128, LedgerError>)
        ensures
            minted is Err ==> *final(self) == *old(self),
            final(self).cap() == old(self).cap(),
            match minted_supply(old(self).total(), old(self).cap(), amount as nat) {
                Ok(total) => minted == Ok::<u128, LedgerError>(total as u128) && final(self).total()
                    == total,
                Err(error) => minted == Err::<u128, LedgerError>(error) && final(self).total()
                    == old(self).total(),
            },
    {
        match self.total_supply.checked_add(amount) {
            Some(total) => {
                if total <= self.max_supply {
                    self.total_supply = total;
                    Ok(total)
                } else {
                    Err(LedgerError::Overflow)
                }
            },
            None => Err(LedgerError::Overflow),
        }
    }

    /// Counts `amount` tokens as gone.
    pub fn burn(&mut self, amount: u128) -> (burned: Result<(), LedgerError>)
        ensures
            burned is Err ==> *final(self) == *old(self),
            final(self).cap() == old(self).cap(),
            match burned_supply(old(self).total(), amount as nat) {
                Ok(total) => burned == Ok::<(), LedgerError>(()) && final(self).total() == total,
                Err(error) => burned == Err::<(), LedgerError>(error) && final(self).total() == old(
                    self,
                ).total(),
            },
    {
        match self.total_supply.checked_sub(amount) {
            Some(total) => {
                self.total_supply = total;
                Ok(())
            },
            None => Err(LedgerError::Underflow),
        }
    }

    /// Replaces the cap. A cap below the current supply is accepted: until the
    /// supply has fallen under it, nothing can be minted.
    pub fn set_max_supply(&mut self, max_supply: u128)
        ensures
            final(self).cap() == max_supply,
            final(self).total() == old(self).total(),
    {
        self.max_supply = max_supply;
    }
}

} // verus!
