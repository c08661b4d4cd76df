//! A table keyed by account identifier, kept as a list of entries in which
//! no identifier occurs twice.

use crate::account::Account;
use crate::listing::{
    distinct_keys, from_listing, lemma_listing_keys, lemma_listing_len, lemma_listing_push,
    lemma_listing_sum, lemma_listing_sum_grows, lemma_listing_swap_remove, lemma_listing_update,
    lemma_listing_value, listing_sum,
};
use crate::sum::total;
use vstd::prelude::*;

verus! {

struct Slot<V> {
    key: Account,
    value: V,
}

/// A finite map from account identifiers to values.
pub struct AccountTable<V> {
    slots: Vec<Slot<V>>,
}

impl<V> View for AccountTable<V> {
    type V = Map<Seq<u8>, V>;

    /// The map that the table holds.
    open spec fn view(&self) -> Map<Seq<u8>, V> {
        from_listing(self.listing())
    }
}

impl<V> AccountTable<V> {
    /// The table's entries in the order in which it keeps them.
    pub closed spec fn listing(&self) -> Seq<(Seq<u8>, V)> {
        Seq::new(self.slots@.len(), |i: int| (self.slots@[i].key@, self.slots@[i].value))
    }

    #[verifier::type_invariant]
    spec fn no_key_twice(&self) -> bool {
        distinct_keys(self.listing())
    }

    /// The empty table.
    pub fn new() -> (table: Self)
        ensures
            table@ == Map::<Seq<u8>, V>::empty(),
    {
        let table = AccountTable { slots: Vec::new() };
        assert(table.listing() =~= Seq::<(Seq<u8>, V)>::empty());
        table
    }

    /// The number of entries.
    pub fn len(&self) -> (n: usize)
        ensures
            self@.dom().finite(),
            n == self@.dom().len(),
            n == self.listing().len(),
    {
        proof {
            use_type_invariant(self);
            lemma_listing_len(self.listing());
        }
        self.slots.len()
    }

    /// The place of the entry with the given identifier, if there is one.
    fn find(&self, key: &Account) -> (place: Option<usize>)
        ensures
            match place {
                Some(i) => i < self.listing().len() && self.listing()[i as int].0 == key@,
                None => !self@.contains_key(key@),
            },
    {
        let mut i: usize = 0;
        while i < self.slots.len()
            invariant
                i <= self.slots.len(),
                forall|j: int| 0 <= j < i ==> (#[trigger] self.listing()[j]).0 != key@,
            decreases self.slots.len() - i,
        {
            if self.slots[i].key == *key {
                return Some(i);
            }
            i += 1;
        }
        proof {
            lemma_listing_keys(self.listing(), key@);
        }
        None
    }

    /// The identifier and the value of the entry at the given place, if the
    /// table has that many entries.
    pub fn entry_at(&self, place: usize) -> (entry: Option<(&Account, &V)>)
        ensures
            match entry {
                Some((key, value)) => {
                    &&& place < self.listing().len()
                    &&& key@ == self.listing()[place as int].0
                    &&& *value == self.listing()[place as int].1
                },
                None => place >= self.listing().len(),
            },
    {
        if place < self.slots.len() {
            Some((&self.slots[place].key, &self.slots[place].value))
        } else {
            None
        }
    }

    /// The value kept for an identifier, if the table has an entry for it.
    pub fn get(&self, key: &Account) -> (value: Option<&V>)
        ensures
            match value {
                Some(v) => self@.contains_key(key@) && *v == self@[key@],
                None => !self@.contains_key(key@),
            },
    {
        match self.find(key) {
            Some(i) => {
                proof {
                    use_type_invariant(self);
                    lemma_listing_value(self.listing(), i as int);
                }
                Some(&self.slots[i].value)
            },
            None => None,
        }
    }

    /// Whether the table has an entry for an identifier.
    pub fn contains_key(&self, key: &Account) -> (found: bool)
        ensures
            found == self@.contains_key(key@),
    {
        match self.find(key) {
            Some(i) => {
                proof {
                    use_type_invariant(self);
                    lemma_listing_value(self.listing(), i as int);
                }
                true
            },
            None => false,
        }
    }

    /// Enters a value for an identifier, in place of the value that the
    /// table kept for it, if any.
    pub fn insert(&mut self, key: Account, value: V)
        ensures
            final(self)@ == old(self)@.insert(key@, value),
    {
        proof {
            use_type_invariant(&*self);
        }
        let place = self.find(&key);
        let ghost before = self.listing();
        let mut slots = Vec::new();
        std::mem::swap(&mut slots, &mut self.slots);
        proof {
            match place {
                Some(i) => {
                    lemma_listing_update(before, i as int, value);
                },
                None => {
                    lemma_listing_push(before, key@, value);
                },
            }
        }
        let ghost after = match place {
            Some(i) => before.update(i as int, (key@, value)),
            None => before.push((key@, value)),
        };
        match place {
            Some(i) => {
                slots.set(i, Slot { key, value });
            },
            None => {
                slots.push(Slot { key, value });
            },
        }
        assert(Seq::new(slots@.len(), |j: int| (slots@[j].key@, slots@[j].value)) =~= after);
        self.slots = slots;
    }

    /// Takes out the entry of an identifier and returns its value, if the
    /// table has such an entry.
    pub fn remove(&mut self, key: &Account) -> (value: Option<V>)
        ensures
            final(self)@ == old(self)@.remove(key@),
            match value {
                Some(v) => old(self)@.contains_key(key@) && v == old(self)@[key@],
                None => !old(self)@.contains_key(key@),
            },
    {
        proof {
            use_type_invariant(&*self);
        }
        let ghost before = self.listing();
        match self.find(key) {
            Some(i) => {
                let mut slots = Vec::new();
                std::mem::swap(&mut slots, &mut self.slots);
                let slot = slots.swap_remove(i);
                proof {
                    lemma_listing_value(before, i as int);
                    lemma_listing_swap_remove(before, i as int);
                }
                assert(Seq::new(slots@.len(), |j: int| (slots@[j].key@, slots@[j].value))
                    =~= before.update(i as int, before.last()).drop_last());
                self.slots = slots;
                Some(slot.value)
            },
            None => {
                assert(self@ =~= old(self)@.remove(key@));
                None
            },
        }
    }
}

/// A list of (account, amount) pairs, each account as its identifier.
pub open spec fn pairs_view(pairs: Seq<(Account, u64)>) -> Seq<(Seq<u8>, u64)> {
    Seq::new(pairs.len(), |i: int| (pairs[i].0@, pairs[i].1))
}

impl AccountTable<u64> {
    /// The sum of all amounts in the table, where it is at most `u64::MAX`.
    pub fn total(&self) -> (sum: Option<u64>)
        ensures
            sum == if total(self@) <= u64::MAX {
                Some(total(self@) as u64)
            } else {
                None
            },
    {
        proof {
            use_type_invariant(self);
            lemma_listing_sum(self.listing());
        }
        let mut sum: u64 = 0;
        let mut i: usize = 0;
        while i < self.slots.len()
            invariant
                i <= self.slots.len(),
                total(self@) == listing_sum(self.listing()),
                sum == listing_sum(self.listing().take(i as int)),
            decreases self.slots.len() - i,
        {
            proof {
                assert(self.listing().take(i + 1).drop_last() =~= self.listing().take(i as int));
                lemma_listing_sum_grows(self.listing(), i + 1);
            }
            match sum.checked_add(self.slots[i].value) {
                Some(next) => {
                    sum = next;
                },
                None => {
                    return None;
                },
            }
            i += 1;
        }
        assert(self.listing().take(self.slots.len() as int) =~= self.listing());
        Some(sum)
    }

    /// The entries of the table as a list of pairs, in which no identifier
    /// occurs twice.
    pub fn to_pairs(&self) -> (pairs: Vec<(Account, u64)>)
        ensures
            distinct_keys(pairs_view(pairs@)),
            from_listing(pairs_view(pairs@)) == self@,
    {
        proof {
            use_type_invariant(self);
        }
        let n = self.slots.len();
        let mut pairs: Vec<(Account, u64)> = Vec::new();
        let mut i: usize = 0;
        while i < n
            invariant
                i <= n,
                n == self.slots.len(),
                pairs_view(pairs@) =~= self.listing().take(i as int),
            decreases n - i,
        {
            let ghost before = pairs_view(pairs@);
            pairs.push((self.slots[i].key.clone(), self.slots[i].value));
            assert(pairs_view(pairs@) =~= before.push(self.listing()[i as int]));
            i += 1;
        }
        assert(self.listing().take(n as int) =~= self.listing());
        pairs
    }

    /// The table that a list of pairs denotes. Where an identifier occurs
    /// twice, its later pair counts.
    pub fn from_pairs(pairs: &Vec<(Account, u64)>) -> (table: Self)
        ensures
            table@ == from_listing(pairs_view(pairs@)),
    {
        let mut table: AccountTable<u64> = AccountTable::new();
        let mut i: usize = 0;
        while i < pairs.len()
            invariant
                i <= pairs.len(),
                table@ == from_listing(pairs_view(pairs@).take(i as int)),
            decreases pairs.len() - i,
        {
            table.insert(pairs[i].0.clone(), pairs[i].1);
            assert(pairs_view(pairs@).take(i + 1).drop_last() =~= pairs_view(pairs@).take(
                i as int,
            ));
            i += 1;
        }
        assert(pairs_view(pairs@).take(pairs.len() as int) =~= pairs_view(pairs@));
        table
    }
}

} // verus!
