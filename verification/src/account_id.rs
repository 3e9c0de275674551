//! Account identifiers: strings that the NEAR runtime accepts as account names.

use vstd::prelude::*;
use vstd::utf8::encode_utf8;

verus! {

/// A lower-case ASCII letter or an ASCII digit.
pub open spec fn is_id_alphanumeric(b: u8) -> bool {
    (0x61 <= b <= 0x7a) || (0x30 <= b <= 0x39)
}

/// One of the three separators `-`, `_` and `.`.
pub open spec fn is_id_separator(b: u8) -> bool {
    b == 0x2d || b == 0x5f || b == 0x2e
}

/// The bytes of a well-formed account name: between 2 and 64 of them, each a
/// lower-case letter, a digit or a separator, with no separator at either end
/// and no two separators side by side.
pub open spec fn is_valid_account_id_bytes(id: Seq<u8>) -> bool {
    &&& 2 <= id.len() <= 64
    &&& forall|i: int|
        0 <= i < id.len() ==> is_id_alphanumeric(#[trigger] id[i]) || is_id_separator(id[i])
    &&& !is_id_separator(id[0])
    &&& !is_id_separator(id[id.len() - 1])
    &&& forall|i: int|
        0 <= i < id.len() - 1 ==> !(is_id_separator(#[trigger] id[i]) && is_id_separator(id[i + 1]))
}

/// A text is a well-formed account name when its UTF-8 bytes are.
pub open spec fn is_valid_account_id(text: Seq<char>) -> bool {
    is_valid_account_id_bytes(encode_utf8(text))
}

/// `near_sdk::env::is_valid_account_id` is trusted to accept exactly the byte
/// strings described by [`is_valid_account_id_bytes`]: it rejects a length
/// outside 2..=64, then walks the bytes once, rejecting any byte that is not a
/// lower-case letter, a digit or a separator, any separator that follows a
/// separator or opens the name, and a name that ends in a separator.
pub assume_specification[ near_sdk::env::is_valid_account_id ](account_id: &[u8]) -> (valid: bool)
    ensures
        valid == is_valid_account_id_bytes(account_id@),
;

/// The name of an account. Every value holds a well-formed name.
#[derive(Debug, PartialEq, Eq)]
pub struct AccountId {
    name: String,
}

impl View for AccountId {
    type V = Seq<char>;

    closed spec fn view(&self) -> Seq<char> {
        self.name@
    }
}

impl Clone for AccountId {
    fn clone(&self) -> (copy: Self)
        ensures
            copy@ == self@,
    {
        proof {
            use_type_invariant(self);
        }
        AccountId { name: self.name.clone() }
    }
}

impl AccountId {
    #[verifier::type_invariant]
    spec fn well_formed(&self) -> bool {
        is_valid_account_id(self.name@)
    }

    /// Accepts `name` if it is a well-formed account name.
    pub fn new(name: String) -> (id: Option<AccountId>)
        ensures
            id is Some <==> is_valid_account_id(name@),
            id matches Some(a) ==> a@ == name@,
    {
        if near_sdk::env::is_valid_account_id(name.as_str().as_bytes()) {
            Some(AccountId { name })
        } else {
            None
        }
    }

    /// The name as text.
    pub fn as_str(&self) -> (text: &str)
        ensures
            text@ == self@,
            is_valid_account_id(text@),
    {
        proof {
            use_type_invariant(self);
        }
        self.name.as_str()
    }

    /// A copy of the name as an owned string.
    pub fn to_string(&self) -> (text: String)
        ensures
            text@ == self@,
    {
        self.name.clone()
    }

    /// Whether two identifiers name the same account.
    pub fn same_as(&self, other: &AccountId) -> (same: bool)
        ensures
            same == (self@ == other@),
    {
        self.name == other.name
    }
}

} // verus!
