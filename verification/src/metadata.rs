//! The descriptive record of a token.

use vstd::prelude::*;

verus! {

/// The version of the metadata standard that a record must name.
pub const FT_METADATA_SPEC: &'static str = "ft-1.0.0";

/// The number of bytes in the hash of a reference document.
pub const REFERENCE_HASH_LEN: usize = 32;

/// The name of the example token.
pub const EXAMPLE_NAME: &'static str = "Example NEAR fungible token";

/// The symbol of the example token.
pub const EXAMPLE_SYMBOL: &'static str = "EXAMPLE";

/// The number of decimals of the example token.
pub const EXAMPLE_DECIMALS: u8 = 24;

/// The icon of the example token: the NEAR logo as an inline SVG image.
pub const DATA_IMAGE_SVG_NEAR_ICON: &'static str = "data:image/svg+xml,%3Csvg xmlns='http://www.w3.org/2000/svg' viewBox='0 0 288 288'%3E%3Cg id='l' data-name='l'%3E%3Cpath d='M187.58,79.81l-30.1,44.69a3.2,3.2,0,0,0,4.75,4.2L191.86,103a1.2,1.2,0,0,1,2,.91v80.46a1.2,1.2,0,0,1-2.12.77L102.18,77.93A15.35,15.35,0,0,0,90.47,72.5H87.34A15.34,15.34,0,0,0,72,87.84V201.16A15.34,15.34,0,0,0,87.34,216.5h0a15.35,15.35,0,0,0,13.08-7.31l30.1-44.69a3.2,3.2,0,0,0-4.75-4.2L96.14,186a1.2,1.2,0,0,1-2-.91V104.61a1.2,1.2,0,0,1,2.12-.77l89.55,107.23a15.35,15.35,0,0,0,11.71,5.43h3.13A15.34,15.34,0,0,0,216,201.16V87.84A15.34,15.34,0,0,0,200.66,72.5h0A15.35,15.35,0,0,0,187.58,79.81Z'/%3E%3C/g%3E%3C/svg%3E";

/// What clients are told about the token. The ledger keeps the record as it
/// was given and never reads it.
#[derive(Clone, Debug, PartialEq, Eq)]
pub struct FungibleTokenMetadata {
    pub spec: String,
    pub name: String,
    pub symbol: String,
    pub icon: Option<String>,
    pub reference: Option<String>,
    pub reference_hash: Option<Vec<u8>>,
    pub decimals: u8,
}

impl FungibleTokenMetadata {
    /// The record names the supported standard, and carries a reference
    /// exactly when it carries the 32-byte hash of one.
    pub open spec fn valid(&self) -> bool {
        &&& self.spec@ == FT_METADATA_SPEC@
        &&& self.reference is Some <==> self.reference_hash is Some
        &&& self.reference_hash matches Some(hash) ==> hash@.len() == REFERENCE_HASH_LEN
    }

    /// The record is the one of the example token.
    pub open spec fn is_example(&self) -> bool {
        &&& self.spec@ == FT_METADATA_SPEC@
        &&& self.name@ == EXAMPLE_NAME@
        &&& self.symbol@ == EXAMPLE_SYMBOL@
        &&& self.icon matches Some(icon) && icon@ == DATA_IMAGE_SVG_NEAR_ICON@
        &&& self.reference is None
        &&& self.reference_hash is None
        &&& self.decimals == EXAMPLE_DECIMALS
    }

    /// Whether the record is valid.
    pub fn is_valid(&self) -> (ok: bool)
        ensures
            ok == self.valid(),
    {
        let standard = FT_METADATA_SPEC.to_owned();
        let hash_fits = match &self.reference_hash {
            Some(hash) => hash.len() == REFERENCE_HASH_LEN,
            None => true,
        };
        self.spec == standard && self.reference.is_some() == self.reference_hash.is_some()
            && hash_fits
    }
}

} // verus!
