use vstd::prelude::*;

use std::collections::HashMap;
use std::hash::BuildHasherDefault;

use crate::config::HashStrategy;
use crate::text::{Elem, ElemSpec};

verus! {

/// The associative container under test: a map from `Elem` keys to `Elem`
/// values, backed by the table implementation and hash strategy the
/// configuration selected. Exactly one backing is present; which one it is
/// never changes what the map holds, only how fast it goes.
#[verifier::external_body]
pub struct BenchMap {
    std_table: Option<HashMap<Elem, Elem>>,
    fnv_table: Option<HashMap<Elem, Elem, fnv::FnvBuildHasher>>,
    fx_table: Option<HashMap<Elem, Elem, fxhash::FxBuildHasher>>,
    murmur_table: Option<HashMap<Elem, Elem, BuildHasherDefault<murmur3::murmur3_32::MurmurHasher>>>,
    brown_table: Option<hashbrown::HashMap<Elem, Elem>>,
}

/// The entries a map under test holds, keyed by the elements' mathematical
/// models. `Elem`'s derived equality and hashing are structural, so they
/// agree with equality of `ElemSpec` models under every backing.
pub uninterp spec fn map_of(m: BenchMap) -> Map<ElemSpec, ElemSpec>;

/// The model of a map that holds nothing.
pub open spec fn empty_model() -> Map<ElemSpec, ElemSpec> {
    Map::empty()
}

impl BenchMap {
    /// Relies on `std::collections::HashMap::new`: a new map is empty.
    #[verifier::external_body]
    pub(crate) fn new_standard() -> (m: BenchMap)
        ensures
            map_of(m) == empty_model(),
    {
        BenchMap {
            std_table: Some(HashMap::new()),
            fnv_table: None,
            fx_table: None,
            murmur_table: None,
            brown_table: None,
        }
    }

    /// Relies on `std::collections::HashMap::default` with `fnv::FnvBuildHasher`:
    /// a new map is empty.
    #[verifier::external_body]
    pub(crate) fn new_fnv() -> (m: BenchMap)
        ensures
            map_of(m) == empty_model(),
    {
        BenchMap {
            std_table: None,
            fnv_table: Some(HashMap::default()),
            fx_table: None,
            murmur_table: None,
            brown_table: None,
        }
    }

    /// Relies on `std::collections::HashMap::default` with `fxhash::FxBuildHasher`:
    /// a new map is empty.
    #[verifier::external_body]
    pub(crate) fn new_fx() -> (m: BenchMap)
        ensures
            map_of(m) == empty_model(),
    {
        BenchMap {
            std_table: None,
            fnv_table: None,
            fx_table: Some(HashMap::default()),
            murmur_table: None,
            brown_table: None,
        }
    }

    /// Relies on `std::collections::HashMap::default` with the hasher of
    /// `murmur3::murmur3_32::MurmurHasher`: a new map is empty.
    #[verifier::external_body]
    pub(crate) fn new_murmur3() -> (m: BenchMap)
        ensures
            map_of(m) == empty_model(),
    {
        BenchMap {
            std_table: None,
            fnv_table: None,
            fx_table: None,
            murmur_table: Some(HashMap::default()),
            brown_table: None,
        }
    }

    /// Relies on `hashbrown::HashMap::new`: a new map is empty.
    #[verifier::external_body]
    pub(crate) fn new_hashbrown() -> (m: BenchMap)
        ensures
            map_of(m) == empty_model(),
    {
        BenchMap {
            std_table: None,
            fnv_table: None,
            fx_table: None,
            murmur_table: None,
            brown_table: Some(hashbrown::HashMap::new()),
        }
    }

    /// An empty map backed by the given strategy.
    pub fn new(strategy: HashStrategy) -> (m: BenchMap)
        ensures
            map_of(m) == empty_model(),
    {
        match strategy {
            HashStrategy::Standard => BenchMap::new_standard(),
            HashStrategy::Fnv => BenchMap::new_fnv(),
            HashStrategy::Fx => BenchMap::new_fx(),
            HashStrategy::Murmur3 => BenchMap::new_murmur3(),
            HashStrategy::Hashbrown => BenchMap::new_hashbrown(),
        }
    }

    /// Relies on `reserve` of `std::collections::HashMap` and of
    /// `hashbrown::HashMap`: reservation changes capacity only, never the
    /// entries.
    #[verifier::external_body]
    pub(crate) fn reserve(&mut self, additional: usize)
        ensures
            map_of(*final(self)) == map_of(*old(self)),
    {
        if let Some(m) = &mut self.std_table { m.reserve(additional); }
        else if let Some(m) = &mut self.fnv_table { m.reserve(additional); }
        else if let Some(m) = &mut self.fx_table { m.reserve(additional); }
        else if let Some(m) = &mut self.murmur_table { m.reserve(additional); }
        else if let Some(m) = &mut self.brown_table { m.reserve(additional); }
    }

    /// Relies on `insert` of `std::collections::HashMap` and of
    /// `hashbrown::HashMap`: it binds the key to the value, replacing any
    /// earlier binding of an equal key.
    #[verifier::external_body]
    pub(crate) fn insert(&mut self, k: Elem, v: Elem)
        ensures
            map_of(*final(self)) == map_of(*old(self)).insert(k@, v@),
    {
        if let Some(m) = &mut self.std_table { m.insert(k, v); }
        else if let Some(m) = &mut self.fnv_table { m.insert(k, v); }
        else if let Some(m) = &mut self.fx_table { m.insert(k, v); }
        else if let Some(m) = &mut self.murmur_table { m.insert(k, v); }
        else if let Some(m) = &mut self.brown_table { m.insert(k, v); }
    }

    /// Relies on `get` of `std::collections::HashMap` and of
    /// `hashbrown::HashMap`: it returns the value bound to an equal key, and
    /// nothing on an absent key.
    #[verifier::external_body]
    pub fn get_cloned(&self, k: &Elem) -> (r: Option<Elem>)
        ensures
            r is Some <==> map_of(*self).contains_key(k@),
            r matches Some(v) ==> v@ == map_of(*self)[k@],
    {
        if let Some(m) = &self.std_table { return m.get(k).cloned(); }
        if let Some(m) = &self.fnv_table { return m.get(k).cloned(); }
        if let Some(m) = &self.fx_table { return m.get(k).cloned(); }
        if let Some(m) = &self.murmur_table { return m.get(k).cloned(); }
        match &self.brown_table { Some(m) => m.get(k).cloned(), None => None }
    }

    /// Relies on `len` of `std::collections::HashMap` and of
    /// `hashbrown::HashMap`: the number of entries.
    #[verifier::external_body]
    pub fn len(&self) -> (n: usize)
        ensures
            n == map_of(*self).dom().len(),
    {
        if let Some(m) = &self.std_table { return m.len(); }
        if let Some(m) = &self.fnv_table { return m.len(); }
        if let Some(m) = &self.fx_table { return m.len(); }
        if let Some(m) = &self.murmur_table { return m.len(); }
        match &self.brown_table { Some(m) => m.len(), None => 0 }
    }

    /// Relies on `clone` of `std::collections::HashMap` and of
    /// `hashbrown::HashMap` (through `Option::clone`): the duplicate holds
    /// equal entries.
    #[verifier::external_body]
    pub(crate) fn duplicate(&self) -> (m: BenchMap)
        ensures
            map_of(m) == map_of(*self),
    {
        BenchMap {
            std_table: self.std_table.clone(),
            fnv_table: self.fnv_table.clone(),
            fx_table: self.fx_table.clone(),
            murmur_table: self.murmur_table.clone(),
            brown_table: self.brown_table.clone(),
        }
    }

    /// Relies on `into_iter` of `std::collections::HashMap` and of
    /// `hashbrown::HashMap`: enumeration yields every entry exactly once, in
    /// an unspecified order.
    #[verifier::external_body]
    pub(crate) fn into_pairs(self) -> (r: Vec<(Elem, Elem)>)
        ensures
            r@.len() == map_of(self).dom().len(),
            forall|i: int|
                0 <= i < r@.len() ==> map_of(self).contains_key(#[trigger] r@[i].0@) && map_of(
                    self,
                )[r@[i].0@] == r@[i].1@,
            forall|i: int, j: int| 0 <= i < j < r@.len() ==> r@[i].0@ != r@[j].0@,
            forall|k: ElemSpec| #[trigger]
                map_of(self).contains_key(k) ==> exists|i: int|
                    0 <= i < r@.len() && r@[i].0@ == k,
    {
        if let Some(m) = self.std_table { return m.into_iter().collect(); }
        if let Some(m) = self.fnv_table { return m.into_iter().collect(); }
        if let Some(m) = self.fx_table { return m.into_iter().collect(); }
        if let Some(m) = self.murmur_table { return m.into_iter().collect(); }
        match self.brown_table { Some(m) => m.into_iter().collect(), None => Vec::new() }
    }
}

} // verus!
