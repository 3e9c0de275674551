//! What holds of the token in every state it can reach.

use crate::account_store::{
    balance_in, deposited, registered, unregistered, withdrawn, Balances, MAX_BALANCE,
};
use crate::balances::{
    lemma_balance_within_sum, lemma_remove_absent, lemma_sum_insert, lemma_sum_split,
    sum_of_balances,
};
use crate::error::LedgerError;
use crate::metadata::FungibleTokenMetadata;
use crate::model::{Call, TokenState, Verb};
use crate::storage::{
    lemma_no_growth_refunds_all, lemma_surplus_is_refunded, STORAGE_PRICE_PER_BYTE,
};
use vstd::prelude::*;

verus! {

/// Registering an account leaves every balance, and so the sum, as it was.
/// Registering it a second time changes nothing at all.
pub proof fn lemma_register_is_idempotent(balances: Balances, id: Seq<char>)
    requires
        balances.dom().finite(),
    ensures
        registered(balances, id).dom().finite(),
        registered(balances, id).dom().contains(id),
        forall|other: Seq<char>|
            balance_in(registered(balances, id), other) == balance_in(balances, other),
        sum_of_balances(registered(balances, id)) == sum_of_balances(balances),
        registered(registered(balances, id), id) == registered(balances, id),
{
    if !balances.dom().contains(id) {
        lemma_sum_insert(balances, id, 0);
        lemma_remove_absent(balances, id);
    }
}

/// A deposit raises the sum of all balances by the amount deposited.
pub proof fn lemma_deposit_adds_to_sum(balances: Balances, id: Seq<char>, amount: nat)
    requires
        balances.dom().finite(),
    ensures
        deposited(balances, id, amount) matches Ok(next) ==> {
            &&& next.dom() == balances.dom()
            &&& sum_of_balances(next) == sum_of_balances(balances) + amount
        },
{
    if let Ok(next) = deposited(balances, id, amount) {
        lemma_sum_insert(balances, id, balances[id] + amount);
        lemma_sum_split(balances, id);
    }
}

/// A withdrawal lowers the sum of all balances by the amount withdrawn.
pub proof fn lemma_withdrawal_takes_from_sum(balances: Balances, id: Seq<char>, amount: nat)
    requires
        balances.dom().finite(),
    ensures
        withdrawn(balances, id, amount) matches Ok(next) ==> {
            &&& next.dom() == balances.dom()
            &&& sum_of_balances(next) + amount == sum_of_balances(balances)
        },
{
    if let Ok(next) = withdrawn(balances, id, amount) {
        lemma_sum_insert(balances, id, (balances[id] - amount) as nat);
        lemma_sum_split(balances, id);
    }
}

/// Closing an account leaves the sum of all balances as it was.
pub proof fn lemma_unregister_keeps_sum(balances: Balances, id: Seq<char>)
    requires
        balances.dom().finite(),
    ensures
        unregistered(balances, id) matches Ok(next) ==> {
            &&& next.dom().finite()
            &&& sum_of_balances(next) == sum_of_balances(balances)
        },
{
    if balances.dom().contains(id) {
        lemma_sum_split(balances, id);
    }
}

/// The state of a new token is consistent and within its cap.
pub proof fn lemma_initial_state_consistent(
    owner: Seq<char>,
    metadata: FungibleTokenMetadata,
    max_supply: nat,
    bytes_per_account: nat,
)
    requires
        max_supply <= MAX_BALANCE,
        bytes_per_account <= u64::MAX,
    ensures
        TokenState::initial(owner, metadata, max_supply, bytes_per_account).consistent(),
        TokenState::initial(owner, metadata, max_supply, bytes_per_account).within_cap(),
{
}

/// Whatever a call does to a consistent state, the state stays consistent: the
/// supply is still the sum of all balances, and no number has left its range.
/// The supply also stays within the cap, unless the call is the owner's and
/// lowers the cap under the supply.
pub proof fn lemma_call_keeps_consistent(state: TokenState, call: Call)
    requires
        state.consistent(),
        call.verb matches Verb::ChangeMaxSupply { max_supply } ==> max_supply <= MAX_BALANCE,
    ensures
        state.after(call).consistent(),
        state.within_cap() ==> (state.after(call).within_cap() <==> !state.undercuts_supply(call)),
{
    match call.verb {
        Verb::SetOwner { .. } => {},
        Verb::ChangeMaxSupply { .. } => {},
        Verb::Mint { id, amount } => {
            lemma_register_is_idempotent(state.balances, id);
            lemma_deposit_adds_to_sum(registered(state.balances, id), id, amount);
        },
        Verb::Burn { id, amount } => {
            lemma_withdrawal_takes_from_sum(state.balances, id, amount);
        },
        Verb::Transfer { to, amount } => {
            lemma_withdrawal_takes_from_sum(state.balances, call.caller, amount);
            if let Ok(taken) = withdrawn(state.balances, call.caller, amount) {
                lemma_deposit_adds_to_sum(taken, to, amount);
            }
        },
        Verb::Register { id } => {
            lemma_register_is_idempotent(state.balances, id);
        },
        Verb::Unregister => {
            lemma_unregister_keeps_sum(state.balances, call.caller);
        },
    }
}

/// No call of `calls` asks for a cap beyond the 128-bit range.
pub open spec fn caps_in_range(calls: Seq<Call>) -> bool {
    forall|i: int|
        0 <= i < calls.len() ==> ((#[trigger] calls[i]).verb matches Verb::ChangeMaxSupply {
            max_supply,
        } ==> max_supply <= MAX_BALANCE)
}

/// No call of `calls` goes through and lowers the cap under the supply that
/// exists when the call is made.
pub open spec fn never_undercuts_supply(start: TokenState, calls: Seq<Call>) -> bool {
    forall|i: int|
        0 <= i < calls.len() ==> !(#[trigger] start.after_all(calls.take(i))).undercuts_supply(
            calls[i],
        )
}

/// In every state that can be reached from a consistent one, the supply is
/// the sum of all balances and fits in 128 bits. It is also within the cap, as
/// long as it was at the start and no call has lowered the cap under the
/// supply.
pub proof fn lemma_reachable_states_consistent(start: TokenState, calls: Seq<Call>)
    requires
        start.consistent(),
        caps_in_range(calls),
    ensures
        start.after_all(calls).consistent(),
        start.within_cap() && never_undercuts_supply(start, calls) ==> start.after_all(
            calls,
        ).within_cap(),
    decreases calls.len(),
{
    if calls.len() > 0 {
        let earlier = calls.drop_last();
        assert(caps_in_range(earlier)) by {
            assert forall|i: int| 0 <= i < earlier.len() implies #[trigger] earlier[i]
                == calls[i] by {}
        }
        lemma_reachable_states_consistent(start, earlier);
        lemma_call_keeps_consistent(start.after_all(earlier), calls.last());
        if start.within_cap() && never_undercuts_supply(start, calls) {
            assert(never_undercuts_supply(start, earlier)) by {
                assert forall|i: int| 0 <= i < earlier.len() implies !(#[trigger] start.after_all(
                    earlier.take(i),
                )).undercuts_supply(earlier[i]) by {
                    assert(earlier.take(i) =~= calls.take(i));
                    assert(earlier[i] == calls[i]);
                }
            }
            assert(calls.take(calls.len() - 1) =~= earlier);
            assert(!start.after_all(earlier).undercuts_supply(calls.last()));
        }
    }
}

/// Whatever is asked of a new token, in whatever order, its supply stays the
/// sum of all balances and fits in 128 bits, and stays within the cap as long
/// as no call lowers the cap under the supply.
pub proof fn lemma_new_token_stays_consistent(
    owner: Seq<char>,
    metadata: FungibleTokenMetadata,
    max_supply: nat,
    bytes_per_account: nat,
    calls: Seq<Call>,
)
    requires
        max_supply <= MAX_BALANCE,
        bytes_per_account <= u64::MAX,
        caps_in_range(calls),
    ensures
        ({
            let start = TokenState::initial(owner, metadata, max_supply, bytes_per_account);
            &&& start.after_all(calls).consistent()
            &&& never_undercuts_supply(start, calls) ==> start.after_all(calls).within_cap()
        }),
{
    lemma_initial_state_consistent(owner, metadata, max_supply, bytes_per_account);
    lemma_reachable_states_consistent(
        TokenState::initial(owner, metadata, max_supply, bytes_per_account),
        calls,
    );
}

/// In a consistent state no balance exceeds the supply, and the supply fits in
/// 128 bits.
pub proof fn lemma_balances_in_range(state: TokenState, id: Seq<char>)
    requires
        state.consistent(),
    ensures
        state.balance_of(id) <= state.total_supply <= MAX_BALANCE,
{
    if state.balances.dom().contains(id) {
        lemma_balance_within_sum(state.balances, id);
    }
}

/// Whoever is not the owner is refused by every privileged verb, and the
/// state stays as it was.
pub proof fn lemma_only_owner_is_authorized(state: TokenState, call: Call)
    requires
        call.caller != state.owner,
        call.verb is SetOwner || call.verb is ChangeMaxSupply || call.verb is Mint
            || call.verb is Burn,
    ensures
        state.step(call) == Err::<(TokenState, nat), LedgerError>(LedgerError::NotAuthorized),
        state.after(call) == state,
{
}

/// Registering an account that is registered already changes nothing, and the
/// whole payment goes back.
pub proof fn lemma_registering_again_changes_nothing(
    state: TokenState,
    attached: nat,
    id: Seq<char>,
)
    requires
        state.balances.dom().contains(id),
    ensures
        state.register(attached, id) == Ok::<(TokenState, nat), LedgerError>((state, attached)),
{
}

/// Whoever registers a new account and pays the price of its storage plus a
/// surplus gets exactly the surplus back.
pub proof fn lemma_registration_refunds_surplus(state: TokenState, id: Seq<char>, surplus: nat)
    requires
        state.balances.dom().finite(),
        !state.balances.dom().contains(id),
    ensures
        state.register(
            (state.bytes_per_account * STORAGE_PRICE_PER_BYTE + surplus) as nat,
            id,
        ) matches Ok((next, refund)) && refund == surplus && next.balances
            == state.balances.insert(id, 0),
{
    let count = state.balances.dom().len();
    let bytes = state.bytes_per_account;
    assert(state.balances.insert(id, 0).dom() =~= state.balances.dom().insert(id));
    assert((count + 1) * bytes - count * bytes == bytes) by (nonlinear_arith);
    if bytes == 0 {
        lemma_no_growth_refunds_all(0, STORAGE_PRICE_PER_BYTE as nat, surplus);
    } else {
        assert((count + 1) * bytes > count * bytes) by (nonlinear_arith)
            requires
                bytes > 0,
        ;
        lemma_surplus_is_refunded(
            count * bytes,
            bytes,
            STORAGE_PRICE_PER_BYTE as nat,
            surplus,
        );
    }
}

/// A mint that goes through adds the amount to the account and to the supply,
/// and touches no other balance. It goes through only within the cap: the
/// owner's mint beyond the cap is refused as an overflow.
pub proof fn lemma_mint_adds(
    state: TokenState,
    caller: Seq<char>,
    attached: nat,
    id: Seq<char>,
    amount: nat,
)
    ensures
        state.mint(caller, attached, id, amount) matches Ok((next, _)) ==> {
            &&& next.total_supply == state.total_supply + amount
            &&& next.total_supply <= state.max_supply
            &&& next.balance_of(id) == state.balance_of(id) + amount
            &&& forall|other: Seq<char>|
                other != id ==> next.balance_of(other) == state.balance_of(other)
        },
        caller == state.owner && state.total_supply + amount > state.max_supply ==> state.mint(
            caller,
            attached,
            id,
            amount,
        ) == Err::<(TokenState, nat), LedgerError>(LedgerError::Overflow),
{
}

/// A transfer that goes through moves the amount from the caller to the
/// receiver, touches no other balance, and leaves the supply and the sum of
/// all balances as they were. The whole payment goes back.
pub proof fn lemma_transfer_conserves(
    state: TokenState,
    caller: Seq<char>,
    attached: nat,
    to: Seq<char>,
    amount: nat,
)
    requires
        state.consistent(),
    ensures
        state.transfer(caller, attached, to, amount) matches Ok((next, refund)) ==> {
            &&& next.total_supply == state.total_supply
            &&& sum_of_balances(next.balances) == sum_of_balances(state.balances)
            &&& next.balance_of(caller) + amount == state.balance_of(caller)
            &&& next.balance_of(to) == state.balance_of(to) + amount
            &&& forall|other: Seq<char>|
                other != caller && other != to ==> next.balance_of(other) == state.balance_of(
                    other,
                )
            &&& refund == attached
        },
{
    lemma_call_keeps_consistent(
        state,
        Call { caller, attached, verb: Verb::Transfer { to, amount } },
    );
}

/// Nobody can transfer to themselves.
pub proof fn lemma_self_transfer_is_refused(
    state: TokenState,
    caller: Seq<char>,
    attached: nat,
    amount: nat,
)
    ensures
        state.transfer(caller, attached, caller, amount) == Err::<(TokenState, nat), LedgerError>(
            LedgerError::SelfTransferNotAllowed,
        ),
{
}

} // verus!
