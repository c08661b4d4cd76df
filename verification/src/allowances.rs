//! The allowance registry: what each spender may move out of each owner's
//! balance.

use crate::account::Account;
use crate::listing::{from_listing, lemma_listing_map_values};
use crate::model;
use crate::receipt::TxError;
use crate::table::{pairs_view, AccountTable};
use vstd::prelude::*;

verus! {

/// The map over (owner, spender) pairs that a map from owners to their
/// spenders' limits stands for.
pub open spec fn flatten(nested: Map<Seq<u8>, Map<Seq<u8>, u64>>) -> Map<(Seq<u8>, Seq<u8>), u64> {
    Map::new(
        |pair: (Seq<u8>, Seq<u8>)|
            nested.contains_key(pair.0) && nested[pair.0].contains_key(pair.1),
        |pair: (Seq<u8>, Seq<u8>)| nested[pair.0][pair.1],
    )
}

/// A list of (owner, limits) blocks, each account as its identifier.
pub open spec fn grants_view(grants: Seq<(Account, Vec<(Account, u64)>)>) -> Seq<
    (Seq<u8>, Seq<(Seq<u8>, u64)>),
> {
    Seq::new(grants.len(), |i: int| (grants[i].0@, pairs_view(grants[i].1@)))
}

/// The allowances that a list of (owner, limits) blocks denotes. Within a
/// block a later pair replaces an earlier one with the same spender, and a
/// later block replaces an earlier one with the same owner.
pub open spec fn from_grants(grants: Seq<(Seq<u8>, Seq<(Seq<u8>, u64)>)>) -> Map<
    (Seq<u8>, Seq<u8>),
    u64,
> {
    flatten(
        from_listing(Seq::new(grants.len(), |i: int| (grants[i].0, from_listing(grants[i].1)))),
    )
}

/// The limit of every (owner, spender) pair. A pair without an entry has
/// limit 0.
pub struct Allowances {
    table: AccountTable<AccountTable<u64>>,
}

impl View for Allowances {
    type V = Map<(Seq<u8>, Seq<u8>), u64>;

    closed spec fn view(&self) -> Map<(Seq<u8>, Seq<u8>), u64> {
        flatten(self.nested())
    }
}

impl Allowances {
    /// The limits of each owner's spenders.
    spec fn nested(&self) -> Map<Seq<u8>, Map<Seq<u8>, u64>> {
        self.table@.map_values(|inner: AccountTable<u64>| inner@)
    }

    /// The registry in which every limit is 0.
    pub fn new() -> (allowances: Allowances)
        ensures
            allowances@ == Map::<(Seq<u8>, Seq<u8>), u64>::empty(),
    {
        let allowances = Allowances { table: AccountTable::new() };
        assert(allowances@ =~= Map::<(Seq<u8>, Seq<u8>), u64>::empty());
        allowances
    }

    /// What a spender may still move out of an owner's balance; 0 for a
    /// pair without an entry.
    pub fn allowance_of(&self, owner: &Account, spender: &Account) -> (limit: u64)
        ensures
            limit == model::allowance_of(self@, owner@, spender@),
    {
        match self.table.get(owner) {
            Some(inner) => match inner.get(spender) {
                Some(amount) => *amount,
                None => 0,
            },
            None => 0,
        }
    }

    /// Overwrites the limit of a pair. A limit of 0 takes the pair's entry
    /// out.
    pub fn set_allowance(&mut self, owner: &Account, spender: &Account, amount: u64)
        ensures
            final(self)@ == model::set_allowance(old(self)@, owner@, spender@, amount),
    {
        let ghost before = self.nested();
        let ghost held = if before.contains_key(owner@) {
            before[owner@]
        } else {
            Map::empty()
        };
        let mut inner = match self.table.remove(owner) {
            Some(inner) => inner,
            None => AccountTable::new(),
        };
        assert(self.nested() =~= before.remove(owner@));
        assert(inner@ == held);
        if amount == 0 {
            inner.remove(spender);
        } else {
            inner.insert(spender.clone(), amount);
        }
        if inner.len() > 0 {
            self.table.insert(owner.clone(), inner);
            assert(self.nested() =~= before.insert(owner@, inner@));
        } else {
            assert(inner@.dom() =~= Set::empty());
        }
        assert(self@ =~= model::set_allowance(old(self)@, owner@, spender@, amount)) by {
            let after = self@;
            let wanted = model::set_allowance(old(self)@, owner@, spender@, amount);
            assert forall|pair: (Seq<u8>, Seq<u8>)|
                after.contains_key(pair) <==> wanted.contains_key(pair) by {
                if pair.0 == owner@ {
                    assert(after.contains_key(pair) <==> inner@.contains_key(pair.1));
                    assert(old(self)@.contains_key(pair) <==> held.contains_key(pair.1));
                }
            }
            assert forall|pair: (Seq<u8>, Seq<u8>)| after.contains_key(pair) implies after[pair]
                == wanted[pair] by {
                if pair.0 == owner@ {
                    assert(after[pair] == inner@[pair.1]);
                }
            }
        }
    }

    /// Lowers the limit of a pair by an amount. A pair whose limit is less
    /// than the amount keeps its limit, and the call reports
    /// `InsufficientAllowance`.
    pub fn consume_allowance(
        &mut self,
        owner: &Account,
        spender: &Account,
        amount: u64,
    ) -> (done: Result<(), TxError>)
        ensures
            final(self)@ == model::consume_allowance(old(self)@, owner@, spender@, amount),
            done == if model::allowance_of(old(self)@, owner@, spender@) < amount {
                Err::<(), TxError>(TxError::InsufficientAllowance)
            } else {
                Ok(())
            },
    {
        let limit = self.allowance_of(owner, spender);
        if limit < amount {
            return Err(TxError::InsufficientAllowance);
        }
        self.set_allowance(owner, spender, limit - amount);
        Ok(())
    }

    /// The entries of the registry as a list of (owner, limits) blocks.
    pub fn to_grants(&self) -> (grants: Vec<(Account, Vec<(Account, u64)>)>)
        ensures
            from_grants(grants_view(grants@)) == self@,
    {
        let ghost listing = self.table.listing();
        let n = self.table.len();
        let mut grants: Vec<(Account, Vec<(Account, u64)>)> = Vec::new();
        let mut i: usize = 0;
        while i < n
            invariant
                i <= n,
                n == listing.len(),
                listing == self.table.listing(),
                grants@.len() == i,
                forall|j: int|
                    0 <= j < i ==> (#[trigger] grants@[j]).0@ == listing[j].0 && from_listing(
                        pairs_view(grants@[j].1@),
                    ) == listing[j].1@,
            decreases n - i,
        {
            if let Some((owner, limits)) = self.table.entry_at(i) {
                grants.push((owner.clone(), limits.to_pairs()));
            }
            i += 1;
        }
        proof {
            let view = |inner: AccountTable<u64>| inner@;
            lemma_listing_map_values(listing, view);
            let given = grants_view(grants@);
            assert(Seq::new(given.len(), |i: int| (given[i].0, from_listing(given[i].1)))
                =~= Seq::new(listing.len(), |i: int| (listing[i].0, view(listing[i].1))));
        }
        grants
    }

    /// The registry that a list of (owner, limits) blocks denotes.
    pub fn from_grants(grants: &Vec<(Account, Vec<(Account, u64)>)>) -> (allowances: Allowances)
        ensures
            allowances@ == from_grants(grants_view(grants@)),
    {
        let ghost given = grants_view(grants@);
        let ghost blocks = Seq::new(given.len(), |i: int| (given[i].0, from_listing(given[i].1)));
        let mut allowances = Allowances { table: AccountTable::new() };
        assert(allowances.nested() =~= from_listing(blocks.take(0)));
        let mut i: usize = 0;
        while i < grants.len()
            invariant
                i <= grants.len(),
                given == grants_view(grants@),
                blocks == Seq::new(given.len(), |i: int| (given[i].0, from_listing(given[i].1))),
                allowances.nested() == from_listing(blocks.take(i as int)),
            decreases grants.len() - i,
        {
            let ghost before = allowances.nested();
            let inner = AccountTable::from_pairs(&grants[i].1);
            allowances.table.insert(grants[i].0.clone(), inner);
            assert(allowances.nested() =~= before.insert(grants[i as int].0@, inner@));
            assert(blocks.take(i + 1).drop_last() =~= blocks.take(i as int));
            i += 1;
        }
        assert(blocks.take(grants.len() as int) =~= blocks);
        allowances
    }
}

} // verus!
