//! A pair of maps between symbol texts and symbol identifiers.

use crate::symbol::SymbolType;
use std::collections::HashMap;
use vstd::hash_map::StringHashMap;
use vstd::prelude::*;

verus! {

broadcast use vstd::std_specs::hash::group_hash_axioms;

/// Two maps kept side by side: `forward` from text to identifier and
/// `backward` from identifier to text. Each insertion writes both, so the
/// latest pair for a text and the latest pair for an identifier can be found
/// from either side. Both maps are finite.
pub struct DualMap {
    forward: StringHashMap<SymbolType>,
    /// Keyed by `SymbolType::code`.
    backward: HashMap<u128, String>,
}

impl DualMap {
    /// What every `DualMap` keeps: the forward map is finite. (The backward
    /// map is a standard hash map, and finite as such.)
    #[verifier::type_invariant]
    spec fn finite(&self) -> bool {
        self.forward@.dom().finite()
    }

    /// The text-to-identifier map.
    pub closed spec fn forward_map(&self) -> Map<Seq<char>, SymbolType> {
        self.forward@
    }

    /// The identifier-to-text map.
    pub closed spec fn backward_map(&self) -> Map<SymbolType, Seq<char>> {
        Map::new(
            |s: SymbolType| self.backward@.contains_key(s.code() as u128),
            |s: SymbolType| self.backward@[s.code() as u128]@,
        )
    }

    /// An empty pair of maps.
    pub fn new() -> (m: DualMap)
        ensures
            m.forward_map() == Map::<Seq<char>, SymbolType>::empty(),
            m.backward_map() == Map::<SymbolType, Seq<char>>::empty(),
            m.forward_map().dom().finite(),
    {
        let m = DualMap { forward: StringHashMap::new(), backward: HashMap::new() };
        assert(m.backward_map() =~= Map::<SymbolType, Seq<char>>::empty());
        m
    }

    /// Binds `k` to `v` in the forward map and `v` to `k` in the backward
    /// map, and returns the identifier that `k` was bound to before.
    pub fn insert(&mut self, k: String, v: SymbolType) -> (prev: Option<SymbolType>)
        ensures
            final(self).forward_map() == old(self).forward_map().insert(k@, v),
            final(self).backward_map() == old(self).backward_map().insert(v, k@),
            prev == if old(self).forward_map().contains_key(k@) {
                Some(old(self).forward_map()[k@])
            } else {
                None::<SymbolType>
            },
            old(self).forward_map().dom().finite(),
            final(self).forward_map().dom().finite(),
            final(self).forward_map().len() == old(self).forward_map().len() + if old(
                self,
            ).forward_map().contains_key(k@) {
                0int
            } else {
                1int
            },
    {
        proof {
            use_type_invariant(&*self);
        }
        let mut taken = DualMap::new();
        std::mem::swap(self, &mut taken);
        let DualMap { mut forward, mut backward } = taken;
        let prev = match forward.get(k.as_str()) {
            Some(x) => Some(*x),
            None => None,
        };
        let text = k.clone();
        backward.insert(v.key(), text);
        forward.insert(k, v);
        *self = DualMap { forward, backward };
        proof {
            assert forall|s: SymbolType| s.code() == v.code() implies s == v by {
                crate::symbol::lemma_code_injective(s, v);
            }
            assert(self.backward_map() =~= old(self).backward_map().insert(v, k@));
        }
        prev
    }

    /// The identifier bound to the text `k`, if any.
    pub fn forward(&self, k: &str) -> (v: Option<SymbolType>)
        ensures
            v == if self.forward_map().contains_key(k@) {
                Some(self.forward_map()[k@])
            } else {
                None::<SymbolType>
            },
            self.forward_map().dom().finite(),
    {
        proof {
            use_type_invariant(self);
        }
        match self.forward.get(k) {
            Some(x) => Some(*x),
            None => None,
        }
    }

    /// The text bound to the identifier `v`, if any.
    pub fn backward(&self, v: &SymbolType) -> (k: Option<&String>)
        ensures
            match k {
                Some(text) => self.backward_map().contains_key(*v) && text@
                    == self.backward_map()[*v],
                None => !self.backward_map().contains_key(*v),
            },
            self.forward_map().dom().finite(),
    {
        proof {
            use_type_invariant(self);
        }
        let code = v.key();
        self.backward.get(&code)
    }

    /// The number of texts bound in the forward map.
    pub fn len(&self) -> (n: usize)
        ensures
            n == self.forward_map().len(),
            self.forward_map().dom().finite(),
    {
        proof {
            use_type_invariant(self);
        }
        self.forward.len()
    }
}

} // verus!
