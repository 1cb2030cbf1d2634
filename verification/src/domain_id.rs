//! Domain ids: the key-value pairs of domain identifiers under their shorter name, and the
//! key-ordered set of them.
use vstd::prelude::*;

use crate::domain_identifier::{pairs_map, DomainIdentifier, DomainIdentifierSet};
use crate::identifier::{IdValue, Identifier, IdentifierValue};

verus! {

/// A key-value pair of a domain id.
#[derive(Debug)]
pub struct DomainId {
    pub key: Identifier,
    pub value: IdentifierValue,
}

impl View for DomainId {
    type V = (Seq<char>, IdValue);

    open spec fn view(&self) -> (Seq<char>, IdValue) {
        (self.key@, self.value@)
    }
}

/// A set of domain ids: a map from keys to values, iterated in key order.
#[derive(Debug)]
pub struct DomainIdSet(DomainIdentifierSet);

impl View for DomainIdSet {
    type V = Seq<(Seq<char>, IdValue)>;

    closed spec fn view(&self) -> Seq<(Seq<char>, IdValue)> {
        self.0@
    }
}

impl Clone for DomainIdSet {
    fn clone(&self) -> (r: Self)
        ensures
            r@ == self@,
    {
        DomainIdSet(self.0.clone())
    }
}

impl DomainIdSet {
    /// The ids as a map from keys to values.
    pub closed spec fn as_map(&self) -> Map<Seq<char>, IdValue> {
        self.0.as_map()
    }

    /// Creates a set from pairs, a later pair replacing an earlier one with the same key.
    pub fn new(domain_ids: Vec<DomainId>) -> (r: DomainIdSet)
        ensures
            r.as_map() == pairs_map(domain_ids@.map_values(|e: DomainId| e@)),
    {
        let ghost pairs = domain_ids@.map_values(|e: DomainId| e@);
        let mut converted: Vec<DomainIdentifier> = Vec::new();
        let mut i: usize = 0;
        while i < domain_ids.len()
            invariant
                i <= domain_ids@.len(),
                pairs == domain_ids@.map_values(|e: DomainId| e@),
                converted@.map_values(|e: DomainIdentifier| e@) == pairs.take(i as int),
            decreases domain_ids@.len() - i,
        {
            let d = &domain_ids[i];
            let ghost prev = converted@;
            let c = DomainIdentifier { key: d.key, value: d.value.clone() };
            converted.push(c);
            proof {
                assert(c@ == pairs[i as int]);
                assert(converted@ == prev.push(c));
                assert(converted@.map_values(|e: DomainIdentifier| e@) =~= prev.map_values(|e: DomainIdentifier| e@).push(c@));
                assert(pairs.take(i + 1) =~= pairs.take(i as int).push(pairs[i as int]));
            }
            i = i + 1;
        }
        proof {
            assert(pairs.take(i as int) =~= pairs);
        }
        DomainIdSet(DomainIdentifierSet::new(converted))
    }

    /// Inserts an id, replacing the value of its key when present.
    pub fn insert(&mut self, domain_id: DomainId)
        ensures
            final(self).as_map() == old(self).as_map().insert(domain_id.key@, domain_id.value@),
    {
        self.0.insert(DomainIdentifier { key: domain_id.key, value: domain_id.value });
    }

    /// The value of `key`, if the set holds it.
    pub fn get(&self, key: &Identifier) -> (r: Option<&IdentifierValue>)
        ensures
            r is Some <==> self.as_map().contains_key(key@),
            r matches Some(v) ==> v@ == self.as_map()[key@],
    {
        self.0.get(key)
    }

    /// Number of ids in the set.
    pub fn len(&self) -> (r: usize)
        ensures
            r == self@.len(),
            r == self.as_map().dom().len(),
    {
        self.0.len()
    }
}

} // verus!
