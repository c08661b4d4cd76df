//! Account identifiers: opaque byte strings, compared by value.

use crate::model::{anonymous_account, system_account};
use ic_kit::Principal;
use vstd::prelude::*;

verus! {

/// What `Principal::from_text` decodes from a textual identifier: the
/// identifier's bytes, or `None` where the text is not a valid identifier.
pub uninterp spec fn principal_text_bytes(text: Seq<char>) -> Option<Seq<u8>>;

/// Calls `Principal::anonymous` and hands out the bytes of its result. The
/// anonymous identifier is the single byte 4.
#[verifier::external_body]
fn anonymous_principal_bytes() -> (bytes: Vec<u8>)
    ensures
        bytes@ == seq![4u8],
{
    Principal::anonymous().as_slice().to_vec()
}

/// Calls `Principal::from_text` and hands out the bytes of the identifier it
/// decoded. The result is a function of the text alone. The text `aaaaa-aa`
/// is the identifier of the management canister, which has no bytes.
#[verifier::external_body]
fn principal_bytes_from_text(text: &str) -> (bytes: Option<Vec<u8>>)
    ensures
        match bytes {
            Some(b) => principal_text_bytes(text@) == Some(b@),
            None => principal_text_bytes(text@) is None,
        },
        text@ == "aaaaa-aa"@ ==> bytes is Some && bytes.unwrap()@.len() == 0,
{
    match Principal::from_text(text) {
        Ok(principal) => Some(principal.as_slice().to_vec()),
        Err(_) => None,
    }
}

/// An account identifier. Two identifiers name the same account exactly when
/// their bytes are equal.
#[derive(Debug)]
pub struct Account {
    bytes: Vec<u8>,
}

impl View for Account {
    type V = Seq<u8>;

    closed spec fn view(&self) -> Seq<u8> {
        self.bytes@
    }
}

impl Account {
    /// The identifier made of the given bytes.
    pub fn from_bytes(bytes: Vec<u8>) -> (account: Account)
        ensures
            account@ == bytes@,
    {
        Account { bytes }
    }

    /// The bytes of the identifier.
    pub fn as_bytes(&self) -> (bytes: &Vec<u8>)
        ensures
            bytes@ == self@,
    {
        &self.bytes
    }

    /// The anonymous identifier.
    pub fn anonymous() -> (account: Account)
        ensures
            account@ == anonymous_account(),
    {
        Account { bytes: anonymous_principal_bytes() }
    }

    /// The reserved system identifier: the one that the text `aaaaa-aa`
    /// decodes to, which has no bytes. It stands as the source of newly
    /// minted tokens.
    pub fn system() -> (account: Account)
        ensures
            account@ == system_account(),
            principal_text_bytes("aaaaa-aa"@) == Some(account@),
    {
        match principal_bytes_from_text("aaaaa-aa") {
            Some(bytes) => Account { bytes },
            None => vstd::pervasive::unreached(),
        }
    }

    /// Decodes a textual identifier.
    pub fn from_text(text: &str) -> (account: Option<Account>)
        ensures
            match account {
                Some(a) => principal_text_bytes(text@) == Some(a@),
                None => principal_text_bytes(text@) is None,
            },
    {
        match principal_bytes_from_text(text) {
            Some(bytes) => Some(Account { bytes }),
            None => None,
        }
    }
}

impl PartialEq for Account {
    /// Whether two identifiers name the same account.
    fn eq(&self, other: &Account) -> (same: bool) {
        if self.bytes.len() != other.bytes.len() {
            return false;
        }
        let mut i: usize = 0;
        while i < self.bytes.len()
            invariant
                i <= self.bytes.len(),
                self.bytes.len() == other.bytes.len(),
                forall|j: int| 0 <= j < i ==> self.bytes[j] == other.bytes[j],
            decreases self.bytes.len() - i,
        {
            if self.bytes[i] != other.bytes[i] {
                return false;
            }
            i += 1;
        }
        assert(self.bytes@ =~= other.bytes@);
        true
    }
}

impl Eq for Account {}

impl vstd::std_specs::cmp::PartialEqSpecImpl for Account {
    open spec fn obeys_eq_spec() -> bool {
        true
    }

    open spec fn eq_spec(&self, other: &Account) -> bool {
        self@ == other@
    }
}

impl Clone for Account {
    fn clone(&self) -> (copy: Account)
        ensures
            copy@ == self@,
    {
        Account { bytes: self.bytes.clone() }
    }
}

} // verus!
