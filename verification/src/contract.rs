//! The token contract: the account store and the supply ledger behind one
//! owner, with every verb paid for by the byte.

use crate::account_id::AccountId;
use crate::account_store::{
    balances_of, ids_distinct, registered, Account, AccountStore, MAX_BALANCE,
};
use crate::balances::{
    lemma_balance_within_sum, lemma_two_balances_within_sum, sum_of_balances,
};
use crate::call::{CallContext, Event, Receipt};
use crate::error::LedgerError;
use crate::invariants::{
    lemma_call_keeps_consistent, lemma_initial_state_consistent, lemma_register_is_idempotent,
};
use crate::ledger::Ledger;
use crate::metadata::{
    FungibleTokenMetadata, DATA_IMAGE_SVG_NEAR_ICON, EXAMPLE_DECIMALS, EXAMPLE_NAME,
    EXAMPLE_SYMBOL, FT_METADATA_SPEC,
};
use crate::model::{Call, TokenState, Verb};
use crate::storage::{settle, ONE_YOCTO, STORAGE_PRICE_PER_BYTE};
use vstd::prelude::*;

verus! {

/// A fungible token with a capped supply.
#[derive(Debug)]
pub struct Contract {
    accounts: AccountStore,
    ledger: Ledger,
    owner_id: AccountId,
    metadata: FungibleTokenMetadata,
}

impl View for Contract {
    type V = TokenState;

    closed spec fn view(&self) -> TokenState {
        TokenState {
            balances: self.accounts@,
            total_supply: self.ledger.total(),
            max_supply: self.ledger.cap(),
            owner: self.owner_id@,
            metadata: self.metadata,
            bytes_per_account: self.accounts.bytes_per_account(),
        }
    }
}

impl Contract {
    /// The account store is well formed.
    pub closed spec fn store_wf(&self) -> bool {
        self.accounts.wf()
    }

    /// The contract is well formed: its parts are, and the supply is the sum
    /// of all balances.
    pub open spec fn wf(&self) -> bool {
        self.store_wf() && self@.consistent()
    }

    /// Creates the token with the metadata of the example token.
    pub fn new_default_meta(
        state_exists: bool,
        owner_id: AccountId,
        max_supply: u128,
        account_storage_usage: u64,
    ) -> (created: Result<Contract, LedgerError>)
        ensures
            match created {
                Ok(contract) => !state_exists && contract.wf() && contract@.metadata.is_example()
                    && contract@ == TokenState::initial(
                    owner_id@,
                    contract@.metadata,
                    max_supply as nat,
                    account_storage_usage as nat,
                ),
                Err(error) => state_exists && error == LedgerError::AlreadyInitialized,
            },
    {
        Contract::new(
            state_exists,
            owner_id,
            FungibleTokenMetadata {
                spec: FT_METADATA_SPEC.to_owned(),
                name: EXAMPLE_NAME.to_owned(),
                symbol: EXAMPLE_SYMBOL.to_owned(),
                icon: Some(DATA_IMAGE_SVG_NEAR_ICON.to_owned()),
                reference: None,
                reference_hash: None,
                decimals: EXAMPLE_DECIMALS,
            },
            max_supply,
            account_storage_usage,
        )
    }

    /// Creates the token: no accounts, no tokens, `owner_id` as the owner.
    /// A token can be created once: where the host already holds its state,
    /// the call is refused, whatever else it brings. Each account will take up
    /// `account_storage_usage` bytes.
    pub fn new(
        state_exists: bool,
        owner_id: AccountId,
        metadata: FungibleTokenMetadata,
        max_supply: u128,
        account_storage_usage: u64,
    ) -> (created: Result<Contract, LedgerError>)
        requires
            !state_exists ==> metadata.valid(),
        ensures
            match created {
                Ok(contract) => !state_exists && contract.wf() && contract@ == TokenState::initial(
                    owner_id@,
                    metadata,
                    max_supply as nat,
                    account_storage_usage as nat,
                ),
                Err(error) => state_exists && error == LedgerError::AlreadyInitialized,
            },
    {
        if state_exists {
            return Err(LedgerError::AlreadyInitialized);
        }
        proof {
            lemma_initial_state_consistent(
                owner_id@,
                metadata,
                max_supply as nat,
                account_storage_usage as nat,
            );
        }
        Ok(
            Contract {
                accounts: AccountStore::new(account_storage_usage),
                ledger: Ledger::new(max_supply),
                owner_id,
                metadata,
            },
        )
    }

    /// Puts a token back together from what was stored of it: its owner, its
    /// record, its cap, its supply and its accounts. Refused where an account is
    /// named twice or the supply is not the sum of the balances.
    pub fn restore(
        owner_id: AccountId,
        metadata: FungibleTokenMetadata,
        max_supply: u128,
        total_supply: u128,
        account_storage_usage: u64,
        accounts: Vec<Account>,
    ) -> (restored: Option<Contract>)
        ensures
            restored is Some <==> ids_distinct(accounts@) && sum_of_balances(
                balances_of(accounts@),
            ) == total_supply,
            restored matches Some(contract) ==> contract.wf() && contract@ == (TokenState {
                balances: balances_of(accounts@),
                total_supply: total_supply as nat,
                max_supply: max_supply as nat,
                owner: owner_id@,
                metadata,
                bytes_per_account: account_storage_usage as nat,
            }),
    {
        let accounts = match AccountStore::from_accounts(accounts, account_storage_usage) {
            Some(accounts) => accounts,
            None => return None,
        };
        match accounts.total() {
            Some(sum) => {
                if sum != total_supply {
                    return None;
                }
            },
            None => return None,
        }
        Some(
            Contract {
                accounts,
                ledger: Ledger::restore(total_supply, max_supply),
                owner_id,
                metadata,
            },
        )
    }

    /// The registered accounts with their balances.
    pub fn accounts(&self) -> (list: Vec<Account>)
        requires
            self.wf(),
        ensures
            ids_distinct(list@),
            balances_of(list@) == self@.balances,
    {
        self.accounts.accounts()
    }

    /// The bytes of storage that one registered account takes up.
    pub fn account_storage_usage(&self) -> (bytes: u64)
        ensures
            bytes == self@.bytes_per_account,
    {
        self.accounts.account_storage_usage()
    }

    /// Lets the owner pass and refuses everyone else.
    pub fn assert_owner(&self, caller: &AccountId) -> (allowed: Result<(), LedgerError>)
        ensures
            caller@ == self@.owner ==> allowed == Ok::<(), LedgerError>(()),
            caller@ != self@.owner ==> allowed == Err::<(), LedgerError>(
                LedgerError::NotAuthorized,
            ),
    {
        if self.owner_id.same_as(caller) {
            Ok(())
        } else {
            Err(LedgerError::NotAuthorized)
        }
    }

    /// The owner.
    pub fn get_owner(&self) -> (owner: AccountId)
        ensures
            owner@ == self@.owner,
    {
        self.owner_id.clone()
    }

    /// The descriptive record, as it was given when the token was created.
    pub fn ft_metadata(&self) -> (metadata: &FungibleTokenMetadata)
        ensures
            *metadata == self@.metadata,
    {
        &self.metadata
    }

    /// The number of tokens that exist.
    pub fn ft_total_supply(&self) -> (total: u128)
        ensures
            total == self@.total_supply,
    {
        self.ledger.total_supply()
    }

    /// The number of tokens that may exist at most.
    pub fn max_supply(&self) -> (cap: u128)
        ensures
            cap == self@.max_supply,
    {
        self.ledger.max_supply()
    }

    /// The balance of `account_id`; zero for an account that is not registered.
    pub fn ft_balance_of(&self, account_id: &AccountId) -> (balance: u128)
        requires
            self.wf(),
        ensures
            balance == self@.balance_of(account_id@),
    {
        self.accounts.balance_of(account_id)
    }

    /// Whether `account_id` is registered.
    pub fn is_registered(&self, account_id: &AccountId) -> (known: bool)
        requires
            self.wf(),
        ensures
            known == self@.balances.dom().contains(account_id@),
    {
        self.accounts.is_registered(account_id)
    }

    /// The bytes of storage in use.
    pub fn storage_usage(&self) -> (bytes: u128)
        requires
            self.wf(),
        ensures
            bytes == self@.storage_usage(),
    {
        self.accounts.storage_usage()
    }

    /// What the storage of one more account costs.
    pub fn registration_cost(&self) -> (cost: u128)
        ensures
            cost == self@.bytes_per_account * STORAGE_PRICE_PER_BYTE,
    {
        let bytes: u128 = self.accounts.account_storage_usage() as u128;
        let price: u128 = near_sdk::env::storage_byte_cost();
        assert(bytes * price <= MAX_BALANCE) by (nonlinear_arith)
            requires
                0 <= bytes <= 0xffff_ffff_ffff_ffff,
                price == 10_000_000_000_000_000_000,
        ;
        bytes * price
    }

    /// Settles the storage bill of a verb that will leave `after` bytes in
    /// use, before the verb changes anything.
    fn settle_storage(&self, after: u128, ctx: &CallContext) -> (refund: Result<u128, LedgerError>)
        requires
            self.wf(),
        ensures
            match crate::storage::settlement(
                self@.storage_usage(),
                after as nat,
                STORAGE_PRICE_PER_BYTE as nat,
                ctx.attached_deposit as nat,
            ) {
                Ok(amount) => if amount <= MAX_BALANCE {
                    refund == Ok::<u128, LedgerError>(amount as u128)
                } else {
                    refund == Err::<u128, LedgerError>(LedgerError::Overflow)
                },
                Err(error) => refund == Err::<u128, LedgerError>(error),
            },
    {
        settle(
            self.accounts.storage_usage(),
            after,
            near_sdk::env::storage_byte_cost(),
            ctx.attached_deposit,
        )
    }

    /// The bytes in use once `account_id` is registered.
    fn storage_usage_with(&self, account_id: &AccountId) -> (bytes: u128)
        requires
            self.wf(),
        ensures
            bytes == registered(self@.balances, account_id@).dom().len()
                * self@.bytes_per_account,
            bytes >= self@.storage_usage(),
    {
        let usage = self.accounts.storage_usage();
        if self.accounts.is_registered(account_id) {
            usage
        } else {
            let each = self.accounts.account_storage_usage();
            proof {
                let count = self@.balances.dom().len();
                assert(count * each + each == (count + 1) * each <= MAX_BALANCE)
                    by (nonlinear_arith)
                    requires
                        0 <= count <= 0xffff_ffff_ffff_ffff,
                        0 <= each <= 0xffff_ffff_ffff_ffff,
                ;
            }
            usage + each as u128
        }
    }

    /// The notice that `account_id` was closed while it held `balance`.
    fn on_account_closed(&self, account_id: &AccountId, balance: u128) -> (event: Event)
        ensures
            event.is_account_closed(account_id@, balance as nat),
    {
        Event::AccountClosed { account_id: account_id.clone(), balance }
    }

    /// The notice that `amount` tokens of `account_id` were destroyed.
    fn on_tokens_burned(&self, account_id: &AccountId, amount: u128) -> (event: Event)
        ensures
            event.is_tokens_burned(account_id@, amount as nat),
    {
        Event::TokensBurned { account_id: account_id.clone(), amount }
    }

    /// Names `owner_id` as the new owner and returns it. Only the owner may
    /// do so. The whole payment goes back.
    pub fn set_owner(&mut self, ctx: &CallContext, owner_id: AccountId) -> (named: Result<
        (AccountId, Receipt),
        LedgerError,
    >)
        requires
            old(self).wf(),
        ensures
            final(self).wf(),
            named is Err ==> *final(self) == *old(self),
            match old(self)@.set_owner(
                ctx.predecessor_account_id@,
                ctx.attached_deposit as nat,
                owner_id@,
            ) {
                Ok((next, refund)) => final(self)@ == next && (named matches Ok((owner, receipt))
                    && owner@ == owner_id@ && receipt.is_plain(refund)),
                Err(error) => final(self)@ == old(self)@ && named == Err::<
                    (AccountId, Receipt),
                    LedgerError,
                >(error),
            },
    {
        match self.assert_owner(&ctx.predecessor_account_id) {
            Ok(()) => {},
            Err(error) => return Err(error),
        }
        // Nothing grows: the whole payment goes back.
        let refund = self.settle_storage(self.accounts.storage_usage(), ctx).unwrap();
        let confirmed = owner_id.clone();
        self.owner_id = owner_id;
        Ok((confirmed, Receipt { refund, event: None }))
    }

    /// Moves the cap to `max_supply`. Only the owner may do so, and the call
    /// must come with exactly one yoctoNEAR, which goes back. A cap under the
    /// current supply is accepted: nothing can then be minted until enough has
    /// been burned.
    pub fn change_max_supply(&mut self, ctx: &CallContext, max_supply: u128) -> (changed: Result<
        Receipt,
        LedgerError,
    >)
        requires
            old(self).wf(),
        ensures
            final(self).wf(),
            changed is Err ==> *final(self) == *old(self),
            match old(self)@.change_max_supply(
                ctx.predecessor_account_id@,
                ctx.attached_deposit as nat,
                max_supply as nat,
            ) {
                Ok((next, refund)) => final(self)@ == next && (changed matches Ok(receipt)
                    && receipt.is_plain(refund)),
                Err(error) => final(self)@ == old(self)@ && changed == Err::<Receipt, LedgerError>(
                    error,
                ),
            },
    {
        match self.assert_owner(&ctx.predecessor_account_id) {
            Ok(()) => {},
            Err(error) => return Err(error),
        }
        if ctx.attached_deposit != ONE_YOCTO {
            return Err(LedgerError::InvalidAttachedDeposit);
        }
        // Nothing grows: the whole payment goes back.
        let refund = self.settle_storage(self.accounts.storage_usage(), ctx).unwrap();
        self.ledger.set_max_supply(max_supply);
        Ok(Receipt { refund, event: None })
    }

    /// Creates `amount` tokens in `account_id` and returns the amount. Only the
    /// owner may do so. An account that is not registered is registered on the
    /// way, and the payment must cover its storage; the rest goes back.
    pub fn mint(&mut self, ctx: &CallContext, account_id: &AccountId, amount: u128) -> (minted:
        Result<(u128, Receipt), LedgerError>)
        requires
            old(self).wf(),
        ensures
            final(self).wf(),
            minted is Err ==> *final(self) == *old(self),
            match old(self)@.mint(
                ctx.predecessor_account_id@,
                ctx.attached_deposit as nat,
                account_id@,
                amount as nat,
            ) {
                Ok((next, refund)) => final(self)@ == next && (minted matches Ok((echo, receipt))
                    && echo == amount && receipt.is_plain(refund)),
                Err(error) => final(self)@ == old(self)@ && minted == Err::<
                    (u128, Receipt),
                    LedgerError,
                >(error),
            },
    {
        match self.assert_owner(&ctx.predecessor_account_id) {
            Ok(()) => {},
            Err(error) => return Err(error),
        }
        // The supply is counted on a copy and written back last.
        let mut ledger = self.ledger;
        match ledger.mint(amount) {
            Ok(_) => {},
            Err(error) => return Err(error),
        }
        proof {
            lemma_register_is_idempotent(self@.balances, account_id@);
            lemma_balance_within_sum(registered(self@.balances, account_id@), account_id@);
            lemma_call_keeps_consistent(
                self@,
                Call {
                    caller: ctx.predecessor_account_id@,
                    attached: ctx.attached_deposit as nat,
                    verb: Verb::Mint { id: account_id@, amount: amount as nat },
                },
            );
        }
        let refund = match self.settle_storage(self.storage_usage_with(account_id), ctx) {
            Ok(refund) => refund,
            Err(error) => return Err(error),
        };
        self.accounts.register(account_id);
        // No balance exceeds the supply, which stays in range: the deposit fits.
        self.accounts.deposit(account_id, amount).unwrap();
        self.ledger = ledger;
        Ok((amount, Receipt { refund, event: None }))
    }

    /// Destroys `amount` tokens of `account_id`. Only the owner may do so, and
    /// the call must come with exactly one yoctoNEAR, which goes back.
    pub fn burn(&mut self, ctx: &CallContext, account_id: &AccountId, amount: u128) -> (burned:
        Result<Receipt, LedgerError>)
        requires
            old(self).wf(),
        ensures
            final(self).wf(),
            burned is Err ==> *final(self) == *old(self),
            match old(self)@.burn(
                ctx.predecessor_account_id@,
                ctx.attached_deposit as nat,
                account_id@,
                amount as nat,
            ) {
                Ok((next, refund)) => final(self)@ == next && (burned matches Ok(receipt)
                    && receipt.refund == refund && (receipt.event matches Some(event)
                    && event.is_tokens_burned(account_id@, amount as nat))),
                Err(error) => final(self)@ == old(self)@ && burned == Err::<Receipt, LedgerError>(
                    error,
                ),
            },
    {
        match self.assert_owner(&ctx.predecessor_account_id) {
            Ok(()) => {},
            Err(error) => return Err(error),
        }
        if ctx.attached_deposit != ONE_YOCTO {
            return Err(LedgerError::InvalidAttachedDeposit);
        }
        proof {
            if self@.balances.dom().contains(account_id@) {
                lemma_balance_within_sum(self@.balances, account_id@);
            }
            lemma_call_keeps_consistent(
                self@,
                Call {
                    caller: ctx.predecessor_account_id@,
                    attached: ctx.attached_deposit as nat,
                    verb: Verb::Burn { id: account_id@, amount: amount as nat },
                },
            );
        }
        // Nothing grows: the whole payment goes back.
        let refund = self.settle_storage(self.accounts.storage_usage(), ctx).unwrap();
        match self.accounts.withdraw(account_id, amount) {
            Ok(()) => {},
            Err(error) => return Err(error),
        }
        // What an account holds is part of the supply: there is enough to burn.
        self.ledger.burn(amount).unwrap();
        Ok(Receipt { refund, event: Some(self.on_tokens_burned(account_id, amount)) })
    }

    /// Moves `amount` tokens from the caller to `receiver_id`. Both must be
    /// registered, they must differ, the amount must not be zero, and the
    /// caller must hold it. The whole payment goes back.
    pub fn ft_transfer(
        &mut self,
        ctx: &CallContext,
        receiver_id: &AccountId,
        amount: u128,
    ) -> (moved: Result<Receipt, LedgerError>)
        requires
            old(self).wf(),
        ensures
            final(self).wf(),
            moved is Err ==> *final(self) == *old(self),
            match old(self)@.transfer(
                ctx.predecessor_account_id@,
                ctx.attached_deposit as nat,
                receiver_id@,
                amount as nat,
            ) {
                Ok((next, refund)) => final(self)@ == next && (moved matches Ok(receipt)
                    && receipt.is_plain(refund)),
                Err(error) => final(self)@ == old(self)@ && moved == Err::<Receipt, LedgerError>(
                    error,
                ),
            },
    {
        let sender_id = &ctx.predecessor_account_id;
        if sender_id.same_as(receiver_id) {
            return Err(LedgerError::SelfTransferNotAllowed);
        }
        if amount == 0 {
            return Err(LedgerError::ZeroAmount);
        }
        if !self.accounts.is_registered(sender_id) {
            return Err(LedgerError::AccountNotRegistered);
        }
        if self.accounts.balance_of(sender_id) < amount {
            return Err(LedgerError::InsufficientBalance);
        }
        if !self.accounts.is_registered(receiver_id) {
            return Err(LedgerError::AccountNotRegistered);
        }
        proof {
            lemma_two_balances_within_sum(self@.balances, sender_id@, receiver_id@);
            lemma_call_keeps_consistent(
                self@,
                Call {
                    caller: ctx.predecessor_account_id@,
                    attached: ctx.attached_deposit as nat,
                    verb: Verb::Transfer { to: receiver_id@, amount: amount as nat },
                },
            );
        }
        // Nothing grows: the whole payment goes back.
        let refund = self.settle_storage(self.accounts.storage_usage(), ctx).unwrap();
        self.accounts.withdraw(sender_id, amount).unwrap();
        // Sender and receiver together hold no more than the supply: the
        // deposit fits.
        self.accounts.deposit(receiver_id, amount).unwrap();
        Ok(Receipt { refund, event: None })
    }

    /// Registers `account_id` with a balance of zero. Anyone may do so; the
    /// payment must cover the storage of the new account, and the rest goes
    /// back. For an account that is registered already nothing changes and the
    /// whole payment goes back.
    pub fn register_account(&mut self, ctx: &CallContext, account_id: &AccountId) -> (opened:
        Result<Receipt, LedgerError>)
        requires
            old(self).wf(),
        ensures
            final(self).wf(),
            opened is Err ==> *final(self) == *old(self),
            match old(self)@.register(ctx.attached_deposit as nat, account_id@) {
                Ok((next, refund)) => final(self)@ == next && (opened matches Ok(receipt)
                    && receipt.is_plain(refund)),
                Err(error) => final(self)@ == old(self)@ && opened == Err::<Receipt, LedgerError>(
                    error,
                ),
            },
    {
        proof {
            lemma_call_keeps_consistent(
                self@,
                Call {
                    caller: ctx.predecessor_account_id@,
                    attached: ctx.attached_deposit as nat,
                    verb: Verb::Register { id: account_id@ },
                },
            );
        }
        let refund = match self.settle_storage(self.storage_usage_with(account_id), ctx) {
            Ok(refund) => refund,
            Err(error) => return Err(error),
        };
        self.accounts.register(account_id);
        Ok(Receipt { refund, event: None })
    }

    /// Closes the caller's account, which must hold nothing, and says whether
    /// there was one to close. The call must come with exactly one yoctoNEAR,
    /// which goes back together with the price of the storage set free.
    pub fn unregister_account(&mut self, ctx: &CallContext) -> (closed: Result<
        (bool, Receipt),
        LedgerError,
    >)
        requires
            old(self).wf(),
        ensures
            final(self).wf(),
            closed is Err ==> *final(self) == *old(self),
            match old(self)@.unregister(ctx.predecessor_account_id@, ctx.attached_deposit as nat) {
                Ok((next, refund)) => final(self)@ == next && (closed matches Ok((removed, receipt))
                    && removed == old(self)@.balances.dom().contains(ctx.predecessor_account_id@)
                    && receipt.refund == refund && if removed {
                    receipt.event matches Some(event) && event.is_account_closed(
                        ctx.predecessor_account_id@,
                        0,
                    )
                } else {
                    receipt.event is None
                }),
                Err(error) => final(self)@ == old(self)@ && closed == Err::<
                    (bool, Receipt),
                    LedgerError,
                >(error),
            },
    {
        let account_id = &ctx.predecessor_account_id;
        if ctx.attached_deposit != ONE_YOCTO {
            return Err(LedgerError::InvalidAttachedDeposit);
        }
        let usage = self.accounts.storage_usage();
        if !self.accounts.is_registered(account_id) {
            let refund = self.settle_storage(usage, ctx).unwrap();
            return Ok((false, Receipt { refund, event: None }));
        }
        let balance = self.accounts.balance_of(account_id);
        if balance != 0 {
            return Err(LedgerError::AccountNotEmpty);
        }
        let each = self.accounts.account_storage_usage();
        proof {
            let count = self@.balances.dom().len();
            lemma_call_keeps_consistent(
                self@,
                Call {
                    caller: ctx.predecessor_account_id@,
                    attached: ctx.attached_deposit as nat,
                    verb: Verb::Unregister,
                },
            );
            assert(count * each - each == (count - 1) * each && each
                * 10_000_000_000_000_000_000 + 1 <= MAX_BALANCE) by (nonlinear_arith)
                requires
                    1 <= count,
                    0 <= each <= 0xffff_ffff_ffff_ffff,
            ;
        }
        // The price of one account's storage and the payment fit together.
        let refund = self.settle_storage(usage - each as u128, ctx).unwrap();
        self.accounts.unregister(account_id).unwrap();
        Ok((true, Receipt { refund, event: Some(self.on_account_closed(account_id, balance)) }))
    }
}

} // verus!
