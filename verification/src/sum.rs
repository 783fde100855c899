//! Amounts recorded per identity, and their sum.

use crate::types::Address;
use std::collections::HashMap;
use vstd::prelude::*;

verus! {

broadcast use vstd::std_specs::hash::group_hash_axioms;

/// The stored amounts as mathematical integers.
pub open spec fn amounts(stored: Map<Address, i128>) -> Map<Address, int> {
    Map::new(|id: Address| stored.contains_key(id), |id: Address| stored[id] as int)
}

/// The amount that `m` records for `id`: zero where it records none.
pub open spec fn amount_of(m: Map<Address, int>, id: Address) -> int {
    if m.contains_key(id) {
        m[id]
    } else {
        0
    }
}

/// `m` with `delta` added to the amount of `id`.
pub open spec fn credit(m: Map<Address, int>, id: Address, delta: int) -> Map<Address, int> {
    m.insert(id, amount_of(m, id) + delta)
}

/// No recorded amount is negative.
pub open spec fn non_negative(m: Map<Address, int>) -> bool {
    forall|id: Address| #[trigger] m.contains_key(id) ==> m[id] >= 0
}

/// The sum of all amounts that a finite `m` records.
pub open spec fn total(m: Map<Address, int>) -> int
    decreases m.dom().len(),
    when m.dom().finite()
{
    if m.dom().len() == 0 {
        0
    } else {
        let id = m.dom().choose();
        m[id] + total(m.remove(id))
    }
}

/// The empty record sums to zero.
pub proof fn lemma_total_empty()
    ensures
        total(Map::<Address, int>::empty()) == 0,
{
    assert(Map::<Address, int>::empty().dom() =~= Set::<Address>::empty());
}

/// Any one entry can be taken out of the sum.
pub proof fn lemma_total_remove(m: Map<Address, int>, id: Address)
    requires
        m.dom().finite(),
        m.contains_key(id),
    ensures
        total(m) == m[id] + total(m.remove(id)),
    decreases m.dom().len(),
{
    let first = m.dom().choose();
    if first != id {
        lemma_total_remove(m.remove(first), id);
        lemma_total_remove(m.remove(id), first);
        assert(m.remove(first).remove(id) =~= m.remove(id).remove(first));
    }
}

/// Adding `delta` to one amount adds `delta` to the sum.
pub proof fn lemma_total_credit(m: Map<Address, int>, id: Address, delta: int)
    requires
        m.dom().finite(),
    ensures
        credit(m, id, delta).dom().finite(),
        total(credit(m, id, delta)) == total(m) + delta,
{
    let after = credit(m, id, delta);
    lemma_total_remove(after, id);
    assert(after.remove(id) =~= m.remove(id));
    if m.contains_key(id) {
        lemma_total_remove(m, id);
    } else {
        assert(m.remove(id) =~= m);
    }
}

/// Where no amount is negative, the sum is not negative, and no single
/// amount exceeds it.
pub proof fn lemma_total_bounds(m: Map<Address, int>, id: Address)
    requires
        m.dom().finite(),
        non_negative(m),
    ensures
        0 <= amount_of(m, id) <= total(m),
    decreases m.dom().len(),
{
    if m.dom().len() != 0 {
        let first = m.dom().choose();
        assert(m.contains_key(first));
        lemma_total_bounds(m.remove(first), first);
        if m.contains_key(id) {
            lemma_total_remove(m, id);
            lemma_total_bounds(m.remove(id), id);
        }
    } else {
        assert(!m.dom().contains(id));
    }
}

/// The record that a list of persisted entries describes: `None` where an
/// amount is negative, an identity occurs twice, or the sum of the amounts
/// does not fit in a signed 128-bit integer.
pub open spec fn recorded(entries: Seq<(Address, i128)>) -> Option<Map<Address, int>>
    decreases entries.len(),
{
    if entries.len() == 0 {
        Some(Map::empty())
    } else {
        match recorded(entries.drop_last()) {
            None => None,
            Some(m) => {
                let (id, amount) = entries.last();
                if amount < 0 || m.contains_key(id) || total(m) + amount > i128::MAX {
                    None
                } else {
                    Some(m.insert(id, amount as int))
                }
            },
        }
    }
}

/// A list with a bad beginning describes no record.
proof fn lemma_recorded_prefix(entries: Seq<(Address, i128)>, n: int)
    requires
        0 <= n <= entries.len(),
        recorded(entries.take(n)) is None,
    ensures
        recorded(entries) is None,
    decreases entries.len(),
{
    if n < entries.len() {
        assert(entries.drop_last().take(n) =~= entries.take(n));
        lemma_recorded_prefix(entries.drop_last(), n);
    } else {
        assert(entries.take(n) =~= entries);
    }
}

/// Builds the record that `entries` describe, with the sum of its amounts.
pub(crate) fn collect(entries: &Vec<(Address, i128)>) -> (r: Option<(HashMap<Address, i128>, i128)>)
    ensures
        match recorded(entries@) {
            None => r is None,
            Some(m) => r matches Some((stored, sum)) && amounts(stored@) == m && sum == total(m)
                && m.dom().finite() && non_negative(m),
        },
{
    let mut stored: HashMap<Address, i128> = HashMap::new();
    let mut sum: i128 = 0;
    let mut i: usize = 0;
    proof {
        lemma_total_empty();
        assert(amounts(stored@) =~= Map::<Address, int>::empty());
        assert(entries@.take(0) =~= Seq::<(Address, i128)>::empty());
    }
    while i < entries.len()
        invariant
            i <= entries.len(),
            recorded(entries@.take(i as int)) == Some(amounts(stored@)),
            sum == total(amounts(stored@)),
            amounts(stored@).dom().finite(),
            non_negative(amounts(stored@)),
        decreases entries.len() - i,
    {
        let (id, amount): (Address, i128) = entries[i];
        let ghost before = amounts(stored@);
        proof {
            assert(entries@.take(i + 1).drop_last() =~= entries@.take(i as int));
            assert(entries@.take(i + 1).last() == entries@[i as int]);
        }
        if amount < 0 || stored.contains_key(&id) {
            proof {
                lemma_recorded_prefix(entries@, i + 1);
            }
            return None;
        }
        match sum.checked_add(amount) {
            Some(v) => {
                sum = v;
            },
            None => {
                proof {
                    lemma_recorded_prefix(entries@, i + 1);
                }
                return None;
            },
        }
        stored.insert(id, amount);
        proof {
            assert(amounts(stored@) =~= before.insert(id, amount as int));
            assert(before.insert(id, amount as int) =~= credit(before, id, amount as int));
            lemma_total_credit(before, id, amount as int);
        }
        i = i + 1;
    }
    proof {
        assert(entries@.take(i as int) =~= entries@);
    }
    Some((stored, sum))
}

} // verus!
