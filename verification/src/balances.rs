//! The account registry: who owns how much.

use crate::account::Account;
use crate::listing::{distinct_keys, from_listing, lemma_listing_finite};
use crate::model;
use crate::receipt::TxError;
use crate::sum::total;
use crate::table::{pairs_view, AccountTable};
use vstd::prelude::*;

verus! {

/// The balance of every account. An account without an entry has balance 0.
pub struct Balances {
    table: AccountTable<u64>,
}

impl View for Balances {
    type V = Map<Seq<u8>, u64>;

    closed spec fn view(&self) -> Map<Seq<u8>, u64> {
        self.table@
    }
}

impl Balances {
    /// The registry in which every balance is 0.
    pub fn new() -> (balances: Balances)
        ensures
            balances@ == Map::<Seq<u8>, u64>::empty(),
    {
        Balances { table: AccountTable::new() }
    }

    /// Only finitely many accounts have an entry.
    pub proof fn lemma_finite(&self)
        ensures
            self@.dom().finite(),
    {
        lemma_listing_finite(self.table.listing());
    }

    /// The balance of an account; 0 for one without an entry.
    pub fn balance_of(&self, account: &Account) -> (balance: u64)
        ensures
            balance == model::balance_of(self@, account@),
    {
        match self.table.get(account) {
            Some(amount) => *amount,
            None => 0,
        }
    }

    /// The number of accounts with an entry.
    pub fn holders(&self) -> (n: usize)
        ensures
            n == self@.dom().len(),
    {
        self.table.len()
    }

    /// Adds an amount to the balance of an account. A balance that would
    /// pass `u64::MAX` stays at `u64::MAX`.
    pub fn credit(&mut self, account: &Account, amount: u64)
        ensures
            final(self)@ == model::credit(old(self)@, account@, amount),
    {
        let raised = self.balance_of(account).saturating_add(amount);
        if raised != 0 {
            self.table.insert(account.clone(), raised);
        }
    }

    /// Takes an amount from the balance of an account, and removes the
    /// account's entry where nothing is left. An account that holds less
    /// than the amount keeps what it has, and the call reports
    /// `InsufficientBalance`.
    pub fn debit(&mut self, account: &Account, amount: u64) -> (done: Result<(), TxError>)
        ensures
            final(self)@ == model::debit(old(self)@, account@, amount),
            done == if model::balance_of(old(self)@, account@) < amount {
                Err::<(), TxError>(TxError::InsufficientBalance)
            } else {
                Ok(())
            },
    {
        let held = self.balance_of(account);
        if held < amount {
            return Err(TxError::InsufficientBalance);
        }
        if held == amount {
            self.table.remove(account);
        } else {
            self.table.insert(account.clone(), held - amount);
        }
        Ok(())
    }

    /// The sum of all balances, where it is at most `u64::MAX`.
    pub fn total(&self) -> (sum: Option<u64>)
        ensures
            sum == if total(self@) <= u64::MAX {
                Some(total(self@) as u64)
            } else {
                None
            },
    {
        self.table.total()
    }

    /// The entries of the registry as a list of pairs, in which no account
    /// occurs twice.
    pub fn to_pairs(&self) -> (pairs: Vec<(Account, u64)>)
        ensures
            distinct_keys(pairs_view(pairs@)),
            from_listing(pairs_view(pairs@)) == self@,
    {
        self.table.to_pairs()
    }

    /// The registry that a list of pairs denotes. Where an account occurs
    /// twice, its later pair counts.
    pub fn from_pairs(pairs: &Vec<(Account, u64)>) -> (balances: Balances)
        ensures
            balances@ == from_listing(pairs_view(pairs@)),
    {
        Balances { table: AccountTable::from_pairs(pairs) }
    }
}

} // verus!
