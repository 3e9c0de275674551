use capped_token::{AccountId, AccountStore, LedgerError};

fn account(name: &str) -> AccountId {
    AccountId::new(name.to_string()).unwrap()
}

#[test]
fn a_new_store_is_empty() {
    let store = AccountStore::new(125);
    assert_eq!(store.len(), 0);
    assert_eq!(store.storage_usage(), 0);
    assert_eq!(store.account_storage_usage(), 125);
    assert!(!store.is_registered(&account("alice")));
    assert_eq!(store.balance_of(&account("alice")), 0);
}

#[test]
fn registering_creates_a_zero_balance() {
    let mut store = AccountStore::new(125);
    store.register(&account("alice"));
    assert!(store.is_registered(&account("alice")));
    assert_eq!(store.balance_of(&account("alice")), 0);
    assert_eq!(store.len(), 1);
    assert_eq!(store.storage_usage(), 125);
}

#[test]
fn registering_twice_keeps_the_balance() {
    let mut store = AccountStore::new(125);
    store.register(&account("alice"));
    store.deposit(&account("alice"), 77).unwrap();
    store.register(&account("alice"));
    assert_eq!(store.balance_of(&account("alice")), 77);
    assert_eq!(store.len(), 1);
    assert_eq!(store.storage_usage(), 125);
}

#[test]
fn storage_grows_by_the_same_bytes_for_each_account() {
    let mut store = AccountStore::new(125);
    store.register(&account("alice"));
    store.register(&account("bob"));
    store.register(&account("charlie.with.a.long.name"));
    assert_eq!(store.storage_usage(), 375);
    let mut wide = AccountStore::new(u64::MAX);
    wide.register(&account("alice"));
    wide.register(&account("bob"));
    assert_eq!(wide.storage_usage(), 2 * (u64::MAX as u128));
}

#[test]
fn deposit_needs_a_registered_account() {
    let mut store = AccountStore::new(125);
    assert_eq!(store.deposit(&account("alice"), 1), Err(LedgerError::AccountNotRegistered));
    assert_eq!(store.balance_of(&account("alice")), 0);
    assert!(!store.is_registered(&account("alice")));
}

#[test]
fn deposit_adds_to_the_balance() {
    let mut store = AccountStore::new(125);
    store.register(&account("alice"));
    store.register(&account("bob"));
    assert_eq!(store.deposit(&account("alice"), 40), Ok(()));
    assert_eq!(store.deposit(&account("alice"), 2), Ok(()));
    assert_eq!(store.balance_of(&account("alice")), 42);
    assert_eq!(store.balance_of(&account("bob")), 0);
}

#[test]
fn deposit_stops_at_the_largest_balance() {
    let mut store = AccountStore::new(125);
    store.register(&account("alice"));
    assert_eq!(store.deposit(&account("alice"), u128::MAX - 1), Ok(()));
    assert_eq!(store.deposit(&account("alice"), 2), Err(LedgerError::Overflow));
    assert_eq!(store.balance_of(&account("alice")), u128::MAX - 1);
    assert_eq!(store.deposit(&account("alice"), 1), Ok(()));
    assert_eq!(store.balance_of(&account("alice")), u128::MAX);
}

#[test]
fn withdraw_needs_a_registered_account() {
    let mut store = AccountStore::new(125);
    assert_eq!(store.withdraw(&account("alice"), 0), Err(LedgerError::AccountNotRegistered));
    assert_eq!(store.withdraw(&account("alice"), 5), Err(LedgerError::AccountNotRegistered));
}

#[test]
fn withdraw_takes_no_more_than_there_is() {
    let mut store = AccountStore::new(125);
    store.register(&account("alice"));
    store.deposit(&account("alice"), 10).unwrap();
    assert_eq!(store.withdraw(&account("alice"), 11), Err(LedgerError::InsufficientBalance));
    assert_eq!(store.balance_of(&account("alice")), 10);
    assert_eq!(store.withdraw(&account("alice"), 4), Ok(()));
    assert_eq!(store.balance_of(&account("alice")), 6);
    assert_eq!(store.withdraw(&account("alice"), 6), Ok(()));
    assert_eq!(store.balance_of(&account("alice")), 0);
    assert!(store.is_registered(&account("alice")));
}

#[test]
fn unregister_needs_an_empty_account() {
    let mut store = AccountStore::new(125);
    store.register(&account("alice"));
    store.deposit(&account("alice"), 1).unwrap();
    assert_eq!(store.unregister(&account("alice")), Err(LedgerError::AccountNotEmpty));
    assert!(store.is_registered(&account("alice")));
    assert_eq!(store.balance_of(&account("alice")), 1);
}

#[test]
fn unregister_removes_the_entry() {
    let mut store = AccountStore::new(125);
    store.register(&account("alice"));
    store.register(&account("bob"));
    store.register(&account("charlie"));
    store.deposit(&account("alice"), 5).unwrap();
    store.deposit(&account("charlie"), 9).unwrap();
    assert_eq!(store.unregister(&account("bob")), Ok(true));
    assert!(!store.is_registered(&account("bob")));
    assert_eq!(store.len(), 2);
    assert_eq!(store.storage_usage(), 250);
    assert_eq!(store.balance_of(&account("alice")), 5);
    assert_eq!(store.balance_of(&account("charlie")), 9);
}

#[test]
fn unregistering_a_stranger_removes_nothing() {
    let mut store = AccountStore::new(125);
    store.register(&account("alice"));
    assert_eq!(store.unregister(&account("bob")), Ok(false));
    assert_eq!(store.len(), 1);
}
