//! A capped-supply fungible token ledger with storage-cost accounting.
//!
//! The token keeps a balance for each registered account and counts the
//! tokens that exist against a cap that its owner sets. Whoever makes the
//! account store grow pays for the bytes; whatever was paid beyond that goes
//! back. Every verb either goes through as a whole or leaves the token as it
//! was.
//!
//! - [`model`] says what each verb does, over maps and natural numbers;
//!   [`invariants`] proves what holds of every state that can be reached.
//! - [`contract`] is the token that runs. Each of its verbs is proved to do
//!   what the model says, on [`account_store`] for the balances, [`ledger`]
//!   for the supply and [`storage`] for the bill.
//! - [`account_id`], [`call`], [`error`] and [`metadata`] hold the values that
//!   go in and out; [`balances`] holds the arithmetic of sums over maps.

pub mod account_id;
pub mod account_store;
pub mod balances;
pub mod call;
pub mod contract;
pub mod error;
pub mod invariants;
pub mod ledger;
pub mod metadata;
pub mod model;
pub mod storage;

pub use account_id::AccountId;
pub use account_store::{Account, AccountStore};
pub use call::{CallContext, Event, Receipt};
pub use contract::Contract;
pub use error::LedgerError;
pub use ledger::Ledger;
pub use metadata::FungibleTokenMetadata;
