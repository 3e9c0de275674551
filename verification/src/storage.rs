//! Storage accounting: whoever makes the ledger grow pays for the bytes, and
//! whatever was attached beyond that goes back.

use crate::account_store::MAX_BALANCE;
use crate::error::LedgerError;
use vstd::prelude::*;

verus! {

/// The price of one byte of storage on the NEAR main network, in yoctoNEAR.
pub const STORAGE_PRICE_PER_BYTE: u128 = 10_000_000_000_000_000_000;

/// The one unit of payment that confirms an irreversible verb.
pub const ONE_YOCTO: u128 = 1;

/// `near_sdk::env::storage_byte_cost` is trusted to return the fixed price of
/// one byte of storage, `STORAGE_PRICE_PER_BYTE`, on every call.
pub assume_specification[ near_sdk::env::storage_byte_cost ]() -> (price: near_sdk::Balance)
    ensures
        price == STORAGE_PRICE_PER_BYTE,
;

/// What goes back to the caller of a verb that found `before` bytes in use
/// and left `after`, at `price` per byte, with `attached` paid in.
///
/// Growth is charged against the payment, and a payment that does not cover it
/// is refused. Without growth the whole payment goes back, together with the
/// price of every byte that was released.
pub open spec fn settlement(before: nat, after: nat, price: nat, attached: nat) -> Result<
    nat,
    LedgerError,
> {
    if after > before {
        if attached >= (after - before) * price {
            Ok((attached - (after - before) * price) as nat)
        } else {
            Err(LedgerError::StorageDepositInsufficient)
        }
    } else {
        Ok(((before - after) * price + attached) as nat)
    }
}

/// Settles the storage bill of one verb and returns the refund. A refund that
/// does not fit in 128 bits is reported as `Overflow`.
pub fn settle(before: u128, after: u128, price: u128, attached: u128) -> (refund: Result<
    u128,
    LedgerError,
>)
    ensures
        match settlement(before as nat, after as nat, price as nat, attached as nat) {
            Ok(amount) => if amount <= MAX_BALANCE {
                refund == Ok::<u128, LedgerError>(amount as u128)
            } else {
                refund == Err::<u128, LedgerError>(LedgerError::Overflow)
            },
            Err(error) => refund == Err::<u128, LedgerError>(error),
        },
{
    if after > before {
        let grown: u128 = after - before;
        match grown.checked_mul(price) {
            Some(cost) => {
                if attached >= cost {
                    Ok(attached - cost)
                } else {
                    Err(LedgerError::StorageDepositInsufficient)
                }
            },
            None => Err(LedgerError::StorageDepositInsufficient),
        }
    } else {
        let released: u128 = before - after;
        match released.checked_mul(price) {
            Some(credit) => match credit.checked_add(attached) {
                Some(amount) => Ok(amount),
                None => Err(LedgerError::Overflow),
            },
            None => Err(LedgerError::Overflow),
        }
    }
}

/// A payment of the exact cost of `grown` new bytes plus `surplus` brings
/// back exactly `surplus`.
pub proof fn lemma_surplus_is_refunded(before: nat, grown: nat, price: nat, surplus: nat)
    ensures
        settlement(before, before + grown, price, grown * price + surplus) == Ok::<
            nat,
            LedgerError,
        >(surplus),
{
    assert(0 * price == 0);
}

/// A verb that leaves the storage as it found it returns the whole payment.
pub proof fn lemma_no_growth_refunds_all(usage: nat, price: nat, attached: nat)
    ensures
        settlement(usage, usage, price, attached) == Ok::<nat, LedgerError>(attached),
{
    assert(0 * price == 0);
}

} // verus!
