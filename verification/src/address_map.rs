//! A map from addresses.

use crate::address::Address;
use std::collections::BTreeMap;
use vstd::prelude::*;

verus! {

/// Values by address.
pub struct AddressMap<V> {
    entries: BTreeMap<(u32, u128), V>,
}

/// The address that a pair of numbers stands for.
spec fn address_of(parts: (u32, u128)) -> Address {
    Address { hi: parts.0, lo: parts.1 }
}

/// A pair of numbers is a lawful key of an ordered map.
proof fn lemma_pairs_ordered()
    ensures
        vstd::laws_cmp::obeys_cmp::<(u32, u128)>(),
        vstd::std_specs::btree::key_obeys_cmp_spec::<(u32, u128)>(),
{
    broadcast use vstd::laws_cmp::group_laws_cmp;
    broadcast use vstd::std_specs::btree::group_btree_axioms;

    assert(vstd::laws_cmp::obeys_cmp::<u32>());
    assert(vstd::laws_cmp::obeys_cmp::<u128>());
}

impl<V> View for AddressMap<V> {
    type V = Map<Address, V>;

    closed spec fn view(&self) -> Map<Address, V> {
        Map::new(
            |address: Address| self.entries@.contains_key((address.hi, address.lo)),
            |address: Address| self.entries@[(address.hi, address.lo)],
        )
    }
}

impl<V> AddressMap<V> {
    /// The empty map.
    pub fn new() -> (map: AddressMap<V>)
        ensures
            map@ == Map::<Address, V>::empty(),
    {
        let map = AddressMap { entries: BTreeMap::new() };
        assert(map@ =~= Map::<Address, V>::empty());
        map
    }

    /// The value at `key`.
    pub fn get(&self, key: &Address) -> (found: Option<&V>)
        ensures
            found is Some <==> self@.contains_key(*key),
            found matches Some(value) ==> *value == self@[*key],
    {
        proof {
            lemma_pairs_ordered();
        }
        self.entries.get(&(key.hi, key.lo))
    }

    /// Puts `value` at `key`, and hands back the value that stood there.
    pub fn insert(&mut self, key: Address, value: V) -> (before: Option<V>)
        ensures
            final(self)@ == old(self)@.insert(key, value),
            before is Some <==> old(self)@.contains_key(key),
            before matches Some(earlier) ==> earlier == old(self)@[key],
    {
        proof {
            lemma_pairs_ordered();
        }
        let before = self.entries.insert((key.hi, key.lo), value);
        assert(self@ =~= old(self)@.insert(key, value));
        before
    }

    /// Takes the value at `key` out of the map.
    pub fn remove(&mut self, key: &Address) -> (taken: Option<V>)
        ensures
            final(self)@ == old(self)@.remove(*key),
            taken is Some <==> old(self)@.contains_key(*key),
            taken matches Some(value) ==> value == old(self)@[*key],
    {
        proof {
            lemma_pairs_ordered();
        }
        let taken = self.entries.remove(&(key.hi, key.lo));
        assert(self@ =~= old(self)@.remove(*key));
        taken
    }

    /// The addresses that have a value, each once.
    pub fn keys(&self) -> (keys: Vec<Address>)
        ensures
            keys@.no_duplicates(),
            keys@.to_set() == self@.dom(),
    {
        proof {
            lemma_pairs_ordered();
        }
        let mut keys: Vec<Address> = Vec::new();
        let walk = self.entries.keys();
        let ghost all = vstd::std_specs::iter::IteratorSpec::remaining(&walk).unref();
        proof {
            assert(all.no_duplicates());
            assert(all.to_set() == self.entries@.dom());
        }
        for parts in it: walk
            invariant
                all == it.seq().unref(),
                keys@ == all.take(it.index() as int).map_values(|parts: (u32, u128)| address_of(parts)),
        {
            keys.push(Address { hi: parts.0, lo: parts.1 });
            assert(keys@ =~= all.take(it.index() + 1).map_values(|parts: (u32, u128)| address_of(parts)));
        }
        proof {
            assert(all.take(all.len() as int) =~= all);
            assert(keys@.len() == all.len());
            assert(forall|i: int| 0 <= i < all.len() ==> #[trigger] keys@[i] == address_of(all[i]));
            assert forall|i: int, j: int| 0 <= i < keys@.len() && 0 <= j < keys@.len() && i != j implies keys@[i] != keys@[j] by {
                assert(all[i] != all[j]);
            }
            assert forall|address: Address| keys@.to_set().contains(address) <==> self@.dom().contains(address) by {
                let parts = (address.hi, address.lo);
                if keys@.contains(address) {
                    let i = choose|i: int| 0 <= i < keys@.len() && keys@[i] == address;
                    assert(all[i] == parts);
                    assert(all.to_set().contains(parts));
                }
                if self@.contains_key(address) {
                    assert(all.to_set().contains(parts));
                    let i = choose|i: int| 0 <= i < all.len() && all[i] == parts;
                    assert(keys@[i] == address);
                }
            }
            assert(keys@.to_set() =~= self@.dom());
        }
        keys
    }
}

} // verus!
