//! Lists of (identifier, value) pairs and the maps that they denote.

use crate::sum::{lemma_total_insert, total};
use vstd::prelude::*;

verus! {

/// The map that a list of (identifier, value) pairs denotes: the pairs are
/// entered from first to last, so a later pair replaces an earlier one with
/// the same identifier.
pub open spec fn from_listing<V>(listing: Seq<(Seq<u8>, V)>) -> Map<Seq<u8>, V>
    decreases listing.len(),
{
    if listing.len() == 0 {
        Map::empty()
    } else {
        from_listing(listing.drop_last()).insert(listing.last().0, listing.last().1)
    }
}

/// Whether no identifier occurs twice in a list of pairs.
pub open spec fn distinct_keys<V>(listing: Seq<(Seq<u8>, V)>) -> bool {
    forall|i: int, j: int|
        0 <= i < j < listing.len() ==> (#[trigger] listing[i]).0 != (#[trigger] listing[j]).0
}

/// A list without repeated identifiers stays one when its last pair is
/// dropped.
pub proof fn lemma_distinct_front<V>(listing: Seq<(Seq<u8>, V)>)
    requires
        distinct_keys(listing),
        listing.len() > 0,
    ensures
        distinct_keys(listing.drop_last()),
{
    let front = listing.drop_last();
    assert forall|a: int, b: int| 0 <= a < b < front.len() implies (#[trigger] front[a]).0 != (
    #[trigger] front[b]).0 by {
        assert(listing[a].0 != listing[b].0);
    }
}

/// The map denoted by a list has finitely many keys.
pub proof fn lemma_listing_finite<V>(listing: Seq<(Seq<u8>, V)>)
    ensures
        from_listing(listing).dom().finite(),
    decreases listing.len(),
{
    if listing.len() > 0 {
        lemma_listing_finite(listing.drop_last());
    }
}

/// A key is in the denoted map exactly when some pair of the list has it.
pub proof fn lemma_listing_keys<V>(listing: Seq<(Seq<u8>, V)>, key: Seq<u8>)
    ensures
        from_listing(listing).contains_key(key) <==> exists|i: int|
            0 <= i < listing.len() && (#[trigger] listing[i]).0 == key,
    decreases listing.len(),
{
    if listing.len() > 0 {
        let front = listing.drop_last();
        lemma_listing_keys(front, key);
        if from_listing(listing).contains_key(key) {
            if listing.last().0 == key {
                assert(listing[listing.len() - 1].0 == key);
            } else {
                let i = choose|i: int| 0 <= i < front.len() && (#[trigger] front[i]).0 == key;
                assert(listing[i].0 == key);
            }
        }
        if exists|i: int| 0 <= i < listing.len() && (#[trigger] listing[i]).0 == key {
            let i = choose|i: int| 0 <= i < listing.len() && (#[trigger] listing[i]).0 == key;
            if i < listing.len() - 1 {
                assert(front[i].0 == key);
            }
        }
    }
}

/// In a list without repeated identifiers, each pair's value is the value
/// that the denoted map gives its identifier.
pub proof fn lemma_listing_value<V>(listing: Seq<(Seq<u8>, V)>, i: int)
    requires
        distinct_keys(listing),
        0 <= i < listing.len(),
    ensures
        from_listing(listing).contains_key(listing[i].0),
        from_listing(listing)[listing[i].0] == listing[i].1,
    decreases listing.len(),
{
    let front = listing.drop_last();
    if i < listing.len() - 1 {
        lemma_distinct_front(listing);
        lemma_listing_value(front, i);
        assert(front[i] == listing[i]);
        assert(listing[i].0 != listing[listing.len() - 1].0);
    }
}

/// In a list without repeated identifiers, the denoted map has as many keys
/// as the list has pairs.
pub proof fn lemma_listing_len<V>(listing: Seq<(Seq<u8>, V)>)
    requires
        distinct_keys(listing),
    ensures
        from_listing(listing).dom().finite(),
        from_listing(listing).dom().len() == listing.len(),
    decreases listing.len(),
{
    if listing.len() > 0 {
        let front = listing.drop_last();
        lemma_distinct_front(listing);
        lemma_listing_len(front);
        lemma_listing_keys(front, listing.last().0);
        if from_listing(front).contains_key(listing.last().0) {
            let i = choose|i: int|
                0 <= i < front.len() && (#[trigger] front[i]).0 == listing.last().0;
            assert(listing[i].0 != listing[listing.len() - 1].0);
        }
    }
}

/// Replacing the value at one place of a list without repeated identifiers
/// enters that value for the place's identifier in the denoted map.
pub proof fn lemma_listing_update<V>(listing: Seq<(Seq<u8>, V)>, i: int, value: V)
    requires
        distinct_keys(listing),
        0 <= i < listing.len(),
    ensures
        distinct_keys(listing.update(i, (listing[i].0, value))),
        from_listing(listing.update(i, (listing[i].0, value))) == from_listing(listing).insert(
            listing[i].0,
            value,
        ),
{
    let key = listing[i].0;
    let after = listing.update(i, (key, value));
    let wanted = from_listing(listing).insert(key, value);
    assert(distinct_keys(after)) by {
        assert forall|a: int, b: int| 0 <= a < b < after.len() implies (#[trigger] after[a]).0 != (
        #[trigger] after[b]).0 by {
            assert(listing[a].0 != listing[b].0);
        }
    }
    assert forall|q: Seq<u8>| from_listing(after).contains_key(q) <==> wanted.contains_key(q) by {
        lemma_listing_keys(after, q);
        lemma_listing_keys(listing, q);
        if exists|j: int| 0 <= j < after.len() && (#[trigger] after[j]).0 == q {
            let j = choose|j: int| 0 <= j < after.len() && (#[trigger] after[j]).0 == q;
            assert(listing[j].0 == q);
        }
        if exists|j: int| 0 <= j < listing.len() && (#[trigger] listing[j]).0 == q {
            let j = choose|j: int| 0 <= j < listing.len() && (#[trigger] listing[j]).0 == q;
            assert(after[j].0 == q);
        }
    }
    assert forall|q: Seq<u8>| from_listing(after).contains_key(q) implies (#[trigger] from_listing(
        after,
    )[q]) == wanted[q] by {
        lemma_listing_keys(after, q);
        let j = choose|j: int| 0 <= j < after.len() && (#[trigger] after[j]).0 == q;
        lemma_listing_value(after, j);
        lemma_listing_value(listing, j);
    }
    assert(from_listing(after) =~= wanted);
}

/// Adding a pair with a new identifier at the end of a list without
/// repeated identifiers leaves the list without repeated identifiers.
pub proof fn lemma_listing_push<V>(listing: Seq<(Seq<u8>, V)>, key: Seq<u8>, value: V)
    requires
        distinct_keys(listing),
        !from_listing(listing).contains_key(key),
    ensures
        distinct_keys(listing.push((key, value))),
        from_listing(listing.push((key, value))) == from_listing(listing).insert(key, value),
{
    let after = listing.push((key, value));
    lemma_listing_keys(listing, key);
    assert(after.drop_last() =~= listing);
    assert forall|a: int, b: int| 0 <= a < b < after.len() implies (#[trigger] after[a]).0 != (
    #[trigger] after[b]).0 by {
        if b < listing.len() {
            assert(listing[a].0 != listing[b].0);
        } else {
            assert(listing[a].0 != key);
        }
    }
}

/// Moving the last pair of a list without repeated identifiers to one
/// place, in place of the pair that stood there, takes that place's
/// identifier out of the denoted map.
pub proof fn lemma_listing_swap_remove<V>(listing: Seq<(Seq<u8>, V)>, i: int)
    requires
        distinct_keys(listing),
        0 <= i < listing.len(),
    ensures
        distinct_keys(listing.update(i, listing.last()).drop_last()),
        from_listing(listing.update(i, listing.last()).drop_last()) == from_listing(listing).remove(
            listing[i].0,
        ),
{
    let key = listing[i].0;
    let last = listing.len() - 1;
    let after = listing.update(i, listing.last()).drop_last();
    let wanted = from_listing(listing).remove(key);
    assert(distinct_keys(after)) by {
        assert forall|a: int, b: int| 0 <= a < b < after.len() implies (#[trigger] after[a]).0 != (
        #[trigger] after[b]).0 by {
            if a == i {
                assert(listing[b].0 != listing[last].0);
            } else if b == i {
                assert(listing[a].0 != listing[last].0);
            } else {
                assert(listing[a].0 != listing[b].0);
            }
        }
    }
    assert forall|q: Seq<u8>| from_listing(after).contains_key(q) <==> wanted.contains_key(q) by {
        lemma_listing_keys(after, q);
        lemma_listing_keys(listing, q);
        if exists|j: int| 0 <= j < after.len() && (#[trigger] after[j]).0 == q {
            let j = choose|j: int| 0 <= j < after.len() && (#[trigger] after[j]).0 == q;
            if j == i {
                assert(listing[last].0 == q);
                assert(listing[i].0 != listing[last].0);
            } else {
                assert(listing[j].0 == q);
                if j < i {
                    assert(listing[j].0 != listing[i].0);
                } else {
                    assert(listing[i].0 != listing[j].0);
                }
            }
        }
        if q != key && exists|j: int| 0 <= j < listing.len() && (#[trigger] listing[j]).0 == q {
            let j = choose|j: int| 0 <= j < listing.len() && (#[trigger] listing[j]).0 == q;
            if j == last {
                assert(after[i].0 == q);
            } else {
                assert(after[j].0 == q);
            }
        }
    }
    assert forall|q: Seq<u8>| from_listing(after).contains_key(q) implies (#[trigger] from_listing(
        after,
    )[q]) == wanted[q] by {
        lemma_listing_keys(after, q);
        let j = choose|j: int| 0 <= j < after.len() && (#[trigger] after[j]).0 == q;
        lemma_listing_value(after, j);
        if j == i {
            lemma_listing_value(listing, last);
        } else {
            lemma_listing_value(listing, j);
        }
    }
    assert(from_listing(after) =~= wanted);
}

/// Changing every value of a list by one function changes the denoted map
/// at every key by that function.
pub proof fn lemma_listing_map_values<V, W>(listing: Seq<(Seq<u8>, V)>, f: spec_fn(V) -> W)
    ensures
        from_listing(listing).map_values(f) == from_listing(
            Seq::new(listing.len(), |i: int| (listing[i].0, f(listing[i].1))),
        ),
    decreases listing.len(),
{
    let mapped = Seq::new(listing.len(), |i: int| (listing[i].0, f(listing[i].1)));
    if listing.len() == 0 {
        assert(from_listing(listing).map_values(f) =~= from_listing(mapped));
    } else {
        let front = listing.drop_last();
        lemma_listing_map_values(front, f);
        assert(mapped.drop_last() =~= Seq::new(front.len(), |i: int| (front[i].0, f(front[i].1))));
        assert(from_listing(listing).map_values(f) =~= from_listing(mapped));
    }
}

/// The sum of the amounts of a list of pairs.
pub open spec fn listing_sum(listing: Seq<(Seq<u8>, u64)>) -> nat
    decreases listing.len(),
{
    if listing.len() == 0 {
        0
    } else {
        listing_sum(listing.drop_last()) + listing.last().1 as nat
    }
}

/// Where no account occurs twice in a list, the amounts of the list add up
/// to the sum of the map that the list denotes.
pub proof fn lemma_listing_sum(listing: Seq<(Seq<u8>, u64)>)
    requires
        distinct_keys(listing),
    ensures
        total(from_listing(listing)) == listing_sum(listing),
    decreases listing.len(),
{
    if listing.len() == 0 {
        assert(from_listing(listing).dom() =~= Set::empty());
    } else {
        let front = listing.drop_last();
        lemma_distinct_front(listing);
        lemma_listing_sum(front);
        lemma_listing_finite(front);
        lemma_listing_keys(front, listing.last().0);
        if from_listing(front).contains_key(listing.last().0) {
            let i = choose|i: int|
                0 <= i < front.len() && (#[trigger] front[i]).0 == listing.last().0;
            assert(listing[i].0 != listing[listing.len() - 1].0);
        }
        lemma_total_insert(from_listing(front), listing.last().0, listing.last().1);
    }
}

/// The sum of the first pairs of a list does not exceed the sum of all.
pub proof fn lemma_listing_sum_grows(listing: Seq<(Seq<u8>, u64)>, n: int)
    requires
        0 <= n <= listing.len(),
    ensures
        listing_sum(listing.take(n)) <= listing_sum(listing),
    decreases listing.len(),
{
    if n == listing.len() {
        assert(listing.take(n) =~= listing);
    } else {
        lemma_listing_sum_grows(listing.drop_last(), n);
        assert(listing.drop_last().take(n) =~= listing.take(n));
    }
}

} // verus!
