use capped_token::metadata::DATA_IMAGE_SVG_NEAR_ICON;
use capped_token::storage::STORAGE_PRICE_PER_BYTE;
use capped_token::{
    AccountId, CallContext, Contract, Event, FungibleTokenMetadata, LedgerError, Receipt,
};

const BYTES: u64 = 125;
const COST: u128 = 125 * STORAGE_PRICE_PER_BYTE;

fn account(name: &str) -> AccountId {
    AccountId::new(name.to_string()).unwrap()
}

fn call(caller: &str, attached_deposit: u128) -> CallContext {
    CallContext { predecessor_account_id: account(caller), attached_deposit }
}

fn zeus() -> FungibleTokenMetadata {
    FungibleTokenMetadata {
        spec: "ft-1.0.0".to_string(),
        name: "ZEUS".to_string(),
        symbol: "zeus".to_string(),
        icon: None,
        reference: None,
        reference_hash: None,
        decimals: 8,
    }
}

// A token owned by "owner", capped at `max_supply`.
fn token(max_supply: u128) -> Contract {
    Contract::new(false, account("owner"), zeus(), max_supply, BYTES).unwrap()
}

// A token in which alice holds 1,000 and bob is registered with nothing.
fn token_with_alice_and_bob() -> Contract {
    let mut contract = token(1_000_000);
    contract.mint(&call("owner", COST), &account("alice"), 1_000).unwrap();
    contract.register_account(&call("bob", COST), &account("bob")).unwrap();
    contract
}

fn plain(refund: u128) -> Receipt {
    Receipt { refund, event: None }
}

#[test]
fn a_new_token_is_empty() {
    let contract = token(210000);
    assert_eq!(contract.get_owner(), account("owner"));
    assert_eq!(contract.ft_total_supply(), 0);
    assert_eq!(contract.max_supply(), 210000);
    assert_eq!(contract.ft_balance_of(&account("owner")), 0);
    assert!(!contract.is_registered(&account("owner")));
    assert_eq!(contract.storage_usage(), 0);
    assert_eq!(contract.registration_cost(), COST);
    assert_eq!(contract.ft_metadata(), &zeus());
}

#[test]
fn a_token_is_created_once() {
    let again = Contract::new(true, account("owner"), zeus(), 210000, BYTES);
    assert_eq!(again.err(), Some(LedgerError::AlreadyInitialized));
    let again = Contract::new_default_meta(true, account("owner"), 210000, BYTES);
    assert_eq!(again.err(), Some(LedgerError::AlreadyInitialized));
    // The state that exists is looked at before the record.
    let mut other_standard = zeus();
    other_standard.spec = "ft-2.0.0".to_string();
    let again = Contract::new(true, account("owner"), other_standard, 210000, BYTES);
    assert_eq!(again.err(), Some(LedgerError::AlreadyInitialized));
}

#[test]
fn the_example_token_has_the_example_metadata() {
    let contract = Contract::new_default_meta(false, account("owner"), 210000, BYTES).unwrap();
    let metadata = contract.ft_metadata();
    assert_eq!(metadata.spec, "ft-1.0.0");
    assert_eq!(metadata.name, "Example NEAR fungible token");
    assert_eq!(metadata.symbol, "EXAMPLE");
    assert_eq!(metadata.icon, Some(DATA_IMAGE_SVG_NEAR_ICON.to_string()));
    assert_eq!(metadata.reference, None);
    assert_eq!(metadata.reference_hash, None);
    assert_eq!(metadata.decimals, 24);
    assert!(metadata.is_valid());
    assert_eq!(contract.get_owner(), account("owner"));
    assert_eq!(contract.max_supply(), 210000);
    assert_eq!(contract.ft_total_supply(), 0);
}

#[test]
fn only_the_owner_passes() {
    let contract = token(1_000_000);
    assert_eq!(contract.assert_owner(&account("owner")), Ok(()));
    assert_eq!(contract.assert_owner(&account("alice")), Err(LedgerError::NotAuthorized));
}

#[test]
fn mint_up_to_the_cap() {
    let mut contract = token(1_000_000);
    let minted = contract.mint(&call("owner", COST), &account("alice"), 1_000_000);
    assert_eq!(minted, Ok((1_000_000, plain(0))));
    assert_eq!(contract.ft_balance_of(&account("alice")), 1_000_000);
    assert_eq!(contract.ft_total_supply(), 1_000_000);
}

#[test]
fn mint_beyond_the_cap_is_refused() {
    let mut contract = token(1_000_000);
    contract.mint(&call("owner", COST), &account("alice"), 1_000_000).unwrap();
    let minted = contract.mint(&call("owner", COST), &account("alice"), 1);
    assert_eq!(minted, Err(LedgerError::Overflow));
    assert_eq!(contract.ft_balance_of(&account("alice")), 1_000_000);
    assert_eq!(contract.ft_total_supply(), 1_000_000);
    let minted = contract.mint(&call("owner", COST), &account("bob"), 1);
    assert_eq!(minted, Err(LedgerError::Overflow));
    assert!(!contract.is_registered(&account("bob")));
    assert_eq!(contract.storage_usage(), 125);
}

#[test]
fn mint_stops_at_the_end_of_the_range() {
    let mut contract = token(u128::MAX);
    contract.mint(&call("owner", COST), &account("alice"), u128::MAX).unwrap();
    assert_eq!(
        contract.mint(&call("owner", COST), &account("bob"), 1),
        Err(LedgerError::Overflow)
    );
    assert_eq!(contract.ft_balance_of(&account("alice")), u128::MAX);
    assert_eq!(contract.ft_total_supply(), u128::MAX);
}

#[test]
fn mint_registers_and_charges_the_storage() {
    let mut contract = token(1_000_000);
    let minted = contract.mint(&call("owner", COST + 50), &account("alice"), 10);
    assert_eq!(minted, Ok((10, plain(50))));
    assert!(contract.is_registered(&account("alice")));
    assert_eq!(contract.storage_usage(), 125);
    let minted = contract.mint(&call("owner", 50), &account("alice"), 10);
    assert_eq!(minted, Ok((10, plain(50))));
    assert_eq!(contract.ft_balance_of(&account("alice")), 20);
    assert_eq!(contract.storage_usage(), 125);
}

#[test]
fn mint_without_the_storage_paid_is_refused() {
    let mut contract = token(1_000_000);
    let minted = contract.mint(&call("owner", COST - 1), &account("alice"), 10);
    assert_eq!(minted, Err(LedgerError::StorageDepositInsufficient));
    assert!(!contract.is_registered(&account("alice")));
    assert_eq!(contract.ft_total_supply(), 0);
    assert_eq!(contract.storage_usage(), 0);
}

#[test]
fn the_cap_is_looked_at_before_the_payment() {
    let mut contract = token(5);
    let minted = contract.mint(&call("owner", 0), &account("alice"), 6);
    assert_eq!(minted, Err(LedgerError::Overflow));
}

#[test]
fn strangers_are_not_authorized() {
    let mut contract = token_with_alice_and_bob();
    assert_eq!(
        contract.mint(&call("alice", COST), &account("alice"), 1),
        Err(LedgerError::NotAuthorized)
    );
    assert_eq!(
        contract.burn(&call("alice", 1), &account("alice"), 1),
        Err(LedgerError::NotAuthorized)
    );
    assert_eq!(
        contract.set_owner(&call("alice", 0), account("alice")),
        Err(LedgerError::NotAuthorized)
    );
    assert_eq!(
        contract.change_max_supply(&call("alice", 1), 5),
        Err(LedgerError::NotAuthorized)
    );
    // A stranger is turned away before the payment is looked at.
    assert_eq!(
        contract.burn(&call("alice", 0), &account("alice"), 1),
        Err(LedgerError::NotAuthorized)
    );
    assert_eq!(
        contract.change_max_supply(&call("alice", 2), 5),
        Err(LedgerError::NotAuthorized)
    );
    assert_eq!(contract.get_owner(), account("owner"));
    assert_eq!(contract.max_supply(), 1_000_000);
    assert_eq!(contract.ft_total_supply(), 1_000);
    assert_eq!(contract.ft_balance_of(&account("alice")), 1_000);
    assert_eq!(contract.ft_balance_of(&account("bob")), 0);
    assert_eq!(contract.storage_usage(), 250);
}

#[test]
fn transfer_moves_tokens() {
    let mut contract = token_with_alice_and_bob();
    let moved = contract.ft_transfer(&call("alice", 1), &account("bob"), 400);
    assert_eq!(moved, Ok(plain(1)));
    assert_eq!(contract.ft_balance_of(&account("alice")), 600);
    assert_eq!(contract.ft_balance_of(&account("bob")), 400);
    assert_eq!(contract.ft_total_supply(), 1_000);
}

#[test]
fn transfer_to_oneself_is_refused() {
    let mut contract = token_with_alice_and_bob();
    assert_eq!(
        contract.ft_transfer(&call("alice", 1), &account("alice"), 1),
        Err(LedgerError::SelfTransferNotAllowed)
    );
    assert_eq!(
        contract.ft_transfer(&call("alice", 1), &account("alice"), 0),
        Err(LedgerError::SelfTransferNotAllowed)
    );
    assert_eq!(contract.ft_balance_of(&account("alice")), 1_000);
}

#[test]
fn transfer_of_nothing_is_refused() {
    let mut contract = token_with_alice_and_bob();
    assert_eq!(
        contract.ft_transfer(&call("alice", 1), &account("bob"), 0),
        Err(LedgerError::ZeroAmount)
    );
    assert_eq!(
        contract.ft_transfer(&call("alice", 1), &account("carol"), 0),
        Err(LedgerError::ZeroAmount)
    );
}

#[test]
fn transfer_needs_two_registered_accounts() {
    let mut contract = token_with_alice_and_bob();
    assert_eq!(
        contract.ft_transfer(&call("alice", 1), &account("carol"), 1),
        Err(LedgerError::AccountNotRegistered)
    );
    assert_eq!(
        contract.ft_transfer(&call("carol", 1), &account("alice"), 1),
        Err(LedgerError::AccountNotRegistered)
    );
    assert!(!contract.is_registered(&account("carol")));
    assert_eq!(contract.ft_balance_of(&account("alice")), 1_000);
    assert_eq!(contract.ft_total_supply(), 1_000);
}

#[test]
fn transfer_takes_no_more_than_there_is() {
    let mut contract = token_with_alice_and_bob();
    assert_eq!(
        contract.ft_transfer(&call("alice", 1), &account("bob"), 1_001),
        Err(LedgerError::InsufficientBalance)
    );
    assert_eq!(
        contract.ft_transfer(&call("bob", 1), &account("alice"), 1),
        Err(LedgerError::InsufficientBalance)
    );
    // The sender is looked at before the receiver.
    assert_eq!(
        contract.ft_transfer(&call("alice", 1), &account("carol"), 1_001),
        Err(LedgerError::InsufficientBalance)
    );
    assert_eq!(
        contract.ft_transfer(&call("dave", 1), &account("carol"), 1),
        Err(LedgerError::AccountNotRegistered)
    );
    assert_eq!(contract.ft_transfer(&call("alice", 0), &account("bob"), 1_000), Ok(plain(0)));
    assert_eq!(contract.ft_balance_of(&account("alice")), 0);
    assert_eq!(contract.ft_balance_of(&account("bob")), 1_000);
}

#[test]
fn burn_destroys_tokens() {
    let mut contract = token_with_alice_and_bob();
    let burned = contract.burn(&call("owner", 1), &account("alice"), 300);
    assert_eq!(
        burned,
        Ok(Receipt {
            refund: 1,
            event: Some(Event::TokensBurned { account_id: account("alice"), amount: 300 }),
        })
    );
    assert_eq!(contract.ft_balance_of(&account("alice")), 700);
    assert_eq!(contract.ft_total_supply(), 700);
}

#[test]
fn burn_needs_one_yocto() {
    let mut contract = token_with_alice_and_bob();
    assert_eq!(
        contract.burn(&call("owner", 0), &account("alice"), 300),
        Err(LedgerError::InvalidAttachedDeposit)
    );
    assert_eq!(
        contract.burn(&call("owner", 2), &account("alice"), 300),
        Err(LedgerError::InvalidAttachedDeposit)
    );
    assert_eq!(contract.ft_balance_of(&account("alice")), 1_000);
    assert_eq!(contract.ft_total_supply(), 1_000);
}

#[test]
fn burn_takes_no_more_than_there_is() {
    let mut contract = token_with_alice_and_bob();
    assert_eq!(
        contract.burn(&call("owner", 1), &account("alice"), 1_001),
        Err(LedgerError::InsufficientBalance)
    );
    assert_eq!(
        contract.burn(&call("owner", 1), &account("carol"), 1),
        Err(LedgerError::AccountNotRegistered)
    );
    assert_eq!(contract.ft_balance_of(&account("alice")), 1_000);
    assert_eq!(contract.ft_total_supply(), 1_000);
}

#[test]
fn the_owner_names_a_new_owner() {
    let mut contract = token_with_alice_and_bob();
    let named = contract.set_owner(&call("owner", 9), account("alice"));
    assert_eq!(named, Ok((account("alice"), plain(9))));
    assert_eq!(contract.get_owner(), account("alice"));
    assert_eq!(
        contract.set_owner(&call("owner", 0), account("owner")),
        Err(LedgerError::NotAuthorized)
    );
    assert_eq!(contract.mint(&call("alice", 0), &account("alice"), 1), Ok((1, plain(0))));
}

#[test]
fn the_owner_moves_the_cap() {
    let mut contract = token(210000);
    assert_eq!(contract.change_max_supply(&call("owner", 1), 1_000_000), Ok(plain(1)));
    assert_eq!(contract.max_supply(), 1_000_000);
    assert_eq!(
        contract.change_max_supply(&call("owner", 0), 5),
        Err(LedgerError::InvalidAttachedDeposit)
    );
    assert_eq!(
        contract.change_max_supply(&call("owner", 2), 5),
        Err(LedgerError::InvalidAttachedDeposit)
    );
    assert_eq!(contract.max_supply(), 1_000_000);
}

#[test]
fn a_cap_under_the_supply_stops_minting() {
    let mut contract = token_with_alice_and_bob();
    assert_eq!(contract.change_max_supply(&call("owner", 1), 900), Ok(plain(1)));
    assert_eq!(contract.max_supply(), 900);
    assert_eq!(contract.ft_total_supply(), 1_000);
    assert_eq!(
        contract.mint(&call("owner", 0), &account("alice"), 1),
        Err(LedgerError::Overflow)
    );
    contract.burn(&call("owner", 1), &account("alice"), 200).unwrap();
    assert_eq!(contract.mint(&call("owner", 0), &account("alice"), 100), Ok((100, plain(0))));
    assert_eq!(contract.ft_total_supply(), 900);
}

#[test]
fn registering_charges_the_storage() {
    let mut contract = token(1_000_000);
    let opened = contract.register_account(&call("alice", COST + 50), &account("alice"));
    assert_eq!(opened, Ok(plain(50)));
    assert!(contract.is_registered(&account("alice")));
    assert_eq!(contract.ft_balance_of(&account("alice")), 0);
    assert_eq!(contract.storage_usage(), 125);
    let opened = contract.register_account(&call("alice", COST), &account("bob"));
    assert_eq!(opened, Ok(plain(0)));
    assert_eq!(contract.storage_usage(), 250);
}

#[test]
fn registering_without_the_storage_paid_is_refused() {
    let mut contract = token(1_000_000);
    let opened = contract.register_account(&call("alice", COST - 1), &account("alice"));
    assert_eq!(opened, Err(LedgerError::StorageDepositInsufficient));
    assert!(!contract.is_registered(&account("alice")));
    assert_eq!(contract.storage_usage(), 0);
}

#[test]
fn registering_again_changes_nothing() {
    let mut contract = token_with_alice_and_bob();
    let opened = contract.register_account(&call("bob", 50), &account("alice"));
    assert_eq!(opened, Ok(plain(50)));
    assert_eq!(contract.ft_balance_of(&account("alice")), 1_000);
    assert_eq!(contract.storage_usage(), 250);
    assert_eq!(contract.ft_total_supply(), 1_000);
}

#[test]
fn closing_an_account_frees_its_storage() {
    let mut contract = token_with_alice_and_bob();
    let closed = contract.unregister_account(&call("bob", 1));
    assert_eq!(
        closed,
        Ok((
            true,
            Receipt {
                refund: COST + 1,
                event: Some(Event::AccountClosed { account_id: account("bob"), balance: 0 }),
            }
        ))
    );
    assert!(!contract.is_registered(&account("bob")));
    assert_eq!(contract.storage_usage(), 125);
    assert_eq!(contract.ft_total_supply(), 1_000);
}

#[test]
fn closing_needs_an_empty_account() {
    let mut contract = token_with_alice_and_bob();
    assert_eq!(
        contract.unregister_account(&call("alice", 1)),
        Err(LedgerError::AccountNotEmpty)
    );
    assert!(contract.is_registered(&account("alice")));
    assert_eq!(contract.ft_balance_of(&account("alice")), 1_000);
}

#[test]
fn closing_needs_one_yocto() {
    let mut contract = token_with_alice_and_bob();
    assert_eq!(
        contract.unregister_account(&call("bob", 0)),
        Err(LedgerError::InvalidAttachedDeposit)
    );
    assert_eq!(
        contract.unregister_account(&call("bob", 2)),
        Err(LedgerError::InvalidAttachedDeposit)
    );
    assert!(contract.is_registered(&account("bob")));
}

#[test]
fn closing_an_account_that_is_not_there_closes_nothing() {
    let mut contract = token_with_alice_and_bob();
    assert_eq!(contract.unregister_account(&call("carol", 1)), Ok((false, plain(1))));
    assert_eq!(contract.storage_usage(), 250);
}

#[test]
fn the_supply_is_the_sum_of_the_balances() {
    let mut contract = token(1_000_000);
    let names = ["alice", "bob", "carol", "dave"];
    let sum = |contract: &Contract| -> u128 {
        names.iter().map(|name| contract.ft_balance_of(&account(name))).sum()
    };
    contract.mint(&call("owner", COST), &account("alice"), 1_000).unwrap();
    assert_eq!(contract.ft_total_supply(), sum(&contract));
    contract.mint(&call("owner", COST), &account("bob"), 250).unwrap();
    assert_eq!(contract.ft_total_supply(), sum(&contract));
    contract.register_account(&call("carol", COST), &account("carol")).unwrap();
    contract.ft_transfer(&call("alice", 0), &account("carol"), 999).unwrap();
    assert_eq!(contract.ft_total_supply(), sum(&contract));
    contract.burn(&call("owner", 1), &account("carol"), 99).unwrap();
    assert_eq!(contract.ft_total_supply(), sum(&contract));
    contract.ft_transfer(&call("bob", 0), &account("alice"), 250).unwrap();
    contract.unregister_account(&call("bob", 1)).unwrap();
    assert_eq!(contract.ft_total_supply(), sum(&contract));
    assert_eq!(contract.ft_total_supply(), 1_151);
    assert!(contract.ft_total_supply() <= contract.max_supply());
    let _ = contract.mint(&call("owner", COST), &account("dave"), 1_000_000);
    assert_eq!(contract.ft_total_supply(), sum(&contract));
    assert_eq!(contract.ft_total_supply(), 1_151);
}
