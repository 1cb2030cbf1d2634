//! Domain identifiers: key-value pairs that associate an event with a domain entity,
//! and the set of them an event carries, kept in key order.
use vstd::prelude::*;

use crate::identifier::{IdValue, Identifier, IdentifierValue};
use crate::utils::{compare, eq, lemma_str_order_eq, lemma_str_order_trans, str_order};

verus! {

/// A key-value pair of a domain identifier.
#[derive(Debug)]
pub struct DomainIdentifier {
    pub key: Identifier,
    pub value: IdentifierValue,
}

impl View for DomainIdentifier {
    type V = (Seq<char>, IdValue);

    open spec fn view(&self) -> (Seq<char>, IdValue) {
        (self.key@, self.value@)
    }
}

impl Clone for DomainIdentifier {
    fn clone(&self) -> (r: Self)
        ensures
            r == *self,
    {
        DomainIdentifier { key: self.key, value: self.value.clone() }
    }
}

impl PartialEq for DomainIdentifier {
    fn eq(&self, other: &Self) -> (r: bool) {
        eq(self.key.into_inner(), other.key.into_inner()) && self.value.same_as(&other.value)
    }
}

impl vstd::std_specs::cmp::PartialEqSpecImpl for DomainIdentifier {
    open spec fn obeys_eq_spec() -> bool {
        true
    }

    open spec fn eq_spec(&self, other: &DomainIdentifier) -> bool {
        self@ == other@
    }
}

impl Eq for DomainIdentifier {}

/// Entries strictly increasing by key in the string order (so no key occurs twice).
pub open spec fn sorted_entries(s: Seq<(Seq<char>, IdValue)>) -> bool {
    forall|i: int, j: int| 0 <= i < j < s.len() ==> str_order(#[trigger] s[i].0, #[trigger] s[j].0) < 0
}

/// Whether `k` is a key of the entries.
pub open spec fn has_key(s: Seq<(Seq<char>, IdValue)>, k: Seq<char>) -> bool {
    exists|i: int| 0 <= i < s.len() && (#[trigger] s[i]).0 == k
}

/// The map from keys to values that the entries hold.
pub open spec fn entries_map(s: Seq<(Seq<char>, IdValue)>) -> Map<Seq<char>, IdValue> {
    Map::new(
        |k: Seq<char>| has_key(s, k),
        |k: Seq<char>| s[choose|i: int| 0 <= i < s.len() && (#[trigger] s[i]).0 == k].1,
    )
}

/// In sorted entries, the entry at `i` is the value of its key.
pub proof fn lemma_entries_map_at(s: Seq<(Seq<char>, IdValue)>, idx: int)
    requires
        sorted_entries(s),
        0 <= idx < s.len(),
    ensures
        entries_map(s).contains_key(s[idx].0),
        entries_map(s)[s[idx].0] == s[idx].1,
{
    let k = s[idx].0;
    assert(has_key(s, k));
    let j = choose|i: int| 0 <= i < s.len() && (#[trigger] s[i]).0 == k;
    lemma_str_order_eq(k, k);
    if j != idx {
        if j < idx {
            assert(str_order(s[j].0, s[idx].0) < 0);
        } else {
            assert(str_order(s[idx].0, s[j].0) < 0);
        }
    }
    assert(entries_map(s)[k] == s[j].1);
}

/// Keys in strictly increasing string order.
pub open spec fn strictly_sorted(ks: Seq<Seq<char>>) -> bool {
    forall|i: int, j: int| 0 <= i < j < ks.len() ==> str_order(#[trigger] ks[i], #[trigger] ks[j]) < 0
}

/// Two sorted key sequences with the same keys are the same sequence.
pub proof fn lemma_sorted_keys_unique(a: Seq<Seq<char>>, b: Seq<Seq<char>>)
    requires
        strictly_sorted(a),
        strictly_sorted(b),
        a.to_set() == b.to_set(),
    ensures
        a == b,
    decreases a.len(),
{
    if a.len() == 0 {
        if b.len() > 0 {
            assert(b.to_set().contains(b[0]));
        }
        assert(a =~= b);
    } else {
        assert(a.to_set().contains(a[0]));
        assert(b.len() > 0);
        assert(b.to_set().contains(b[0]));
        let j = choose|j: int| 0 <= j < b.len() && b[j] == a[0];
        let i = choose|i: int| 0 <= i < a.len() && a[i] == b[0];
        lemma_str_order_eq(a[0], a[0]);
        lemma_str_order_eq(b[0], b[0]);
        if j > 0 {
            assert(str_order(b[0], b[j]) < 0);
            if i > 0 {
                assert(str_order(a[0], a[i]) < 0);
                lemma_str_order_trans(a[0], b[0], a[0]);
            }
        }
        assert(a[0] == b[0]);
        let ra = a.drop_first();
        let rb = b.drop_first();
        assert forall|x: Seq<char>| #[trigger] ra.to_set().contains(x) == rb.to_set().contains(x) by {
            if ra.to_set().contains(x) {
                let p = choose|p: int| 0 <= p < ra.len() && ra[p] == x;
                assert(a[p + 1] == x);
                assert(str_order(a[0], a[p + 1]) < 0);
                assert(b.to_set().contains(x));
                let q = choose|q: int| 0 <= q < b.len() && b[q] == x;
                if q == 0 {
                    lemma_str_order_eq(x, x);
                }
                assert(rb[q - 1] == x);
            }
            if rb.to_set().contains(x) {
                let p = choose|p: int| 0 <= p < rb.len() && rb[p] == x;
                assert(b[p + 1] == x);
                assert(str_order(b[0], b[p + 1]) < 0);
                assert(a.to_set().contains(x));
                let q = choose|q: int| 0 <= q < a.len() && a[q] == x;
                if q == 0 {
                    lemma_str_order_eq(x, x);
                }
                assert(ra[q - 1] == x);
            }
        }
        assert(ra.to_set() =~= rb.to_set());
        lemma_sorted_keys_unique(ra, rb);
        assert(a =~= seq![a[0]] + ra);
        assert(b =~= seq![b[0]] + rb);
    }
}

/// The keys of entries, in order.
pub open spec fn entry_keys(s: Seq<(Seq<char>, IdValue)>) -> Seq<Seq<char>> {
    s.map_values(|p: (Seq<char>, IdValue)| p.0)
}

/// Sorted entries are determined by the map they hold.
pub proof fn lemma_entries_determined(s: Seq<(Seq<char>, IdValue)>, t: Seq<(Seq<char>, IdValue)>)
    requires
        sorted_entries(s),
        sorted_entries(t),
        entries_map(s) == entries_map(t),
    ensures
        s == t,
{
    let ks = entry_keys(s);
    let kt = entry_keys(t);
    assert(strictly_sorted(ks)) by {
        assert forall|i: int, j: int| 0 <= i < j < ks.len() implies str_order(#[trigger] ks[i], #[trigger] ks[j]) < 0 by {
            assert(str_order(s[i].0, s[j].0) < 0);
        }
    }
    assert(strictly_sorted(kt)) by {
        assert forall|i: int, j: int| 0 <= i < j < kt.len() implies str_order(#[trigger] kt[i], #[trigger] kt[j]) < 0 by {
            assert(str_order(t[i].0, t[j].0) < 0);
        }
    }
    assert forall|k: Seq<char>| #[trigger] ks.to_set().contains(k) == kt.to_set().contains(k) by {
        if ks.to_set().contains(k) {
            let q = choose|q: int| 0 <= q < ks.len() && ks[q] == k;
            assert(s[q].0 == k);
            assert(has_key(s, k));
            assert(entries_map(t).contains_key(k));
            let r = choose|r: int| 0 <= r < t.len() && (#[trigger] t[r]).0 == k;
            assert(kt[r] == k);
        }
        if kt.to_set().contains(k) {
            let q = choose|q: int| 0 <= q < kt.len() && kt[q] == k;
            assert(t[q].0 == k);
            assert(has_key(t, k));
            assert(entries_map(s).contains_key(k));
            let r = choose|r: int| 0 <= r < s.len() && (#[trigger] s[r]).0 == k;
            assert(ks[r] == k);
        }
    }
    assert(ks.to_set() =~= kt.to_set());
    lemma_sorted_keys_unique(ks, kt);
    assert(s.len() == t.len()) by {
        assert(ks.len() == kt.len());
    }
    assert forall|i: int| 0 <= i < s.len() implies s[i] == t[i] by {
        assert(ks[i] == kt[i]);
        lemma_entries_map_at(s, i);
        lemma_entries_map_at(t, i);
    }
    assert(s =~= t);
}

/// A set of domain identifiers: a map from identifier keys to values, iterated in key order.
#[derive(Debug)]
pub struct DomainIdentifierSet {
    entries: Vec<DomainIdentifier>,
}

impl View for DomainIdentifierSet {
    type V = Seq<(Seq<char>, IdValue)>;

    closed spec fn view(&self) -> Seq<(Seq<char>, IdValue)> {
        self.entries@.map_values(|e: DomainIdentifier| e@)
    }
}

impl DomainIdentifierSet {
    /// The set is kept in strictly increasing key order.
    #[verifier::type_invariant]
    pub open spec fn wf(&self) -> bool {
        sorted_entries(self@)
    }

    /// The identifiers as a map from keys to values.
    pub open spec fn as_map(&self) -> Map<Seq<char>, IdValue> {
        entries_map(self@)
    }

    /// Two sets are equal exactly when they hold the same identifiers with the same values.
    pub proof fn lemma_equal_iff_same_map(a: DomainIdentifierSet, b: DomainIdentifierSet)
        requires
            a.wf(),
            b.wf(),
        ensures
            (a@ == b@) <==> (a.as_map() == b.as_map()),
    {
        if a.as_map() == b.as_map() {
            lemma_entries_determined(a@, b@);
        }
    }

    /// The set holds as many identifiers as it has distinct keys: its length is the size of
    /// its map.
    pub proof fn lemma_len_is_key_count(s: DomainIdentifierSet)
        requires
            s.wf(),
        ensures
            s.as_map().dom().finite(),
            s.as_map().dom().len() == s@.len(),
    {
        let ks = entry_keys(s@);
        assert(s.as_map().dom() =~= ks.to_set()) by {
            assert forall|k: Seq<char>| #[trigger] s.as_map().dom().contains(k) == ks.to_set().contains(k) by {
                if has_key(s@, k) {
                    let i = choose|i: int| 0 <= i < s@.len() && (#[trigger] s@[i]).0 == k;
                    assert(ks[i] == k);
                }
                if ks.to_set().contains(k) {
                    let i = choose|i: int| 0 <= i < ks.len() && ks[i] == k;
                    assert(s@[i].0 == k);
                }
            }
        }
        assert(ks.no_duplicates()) by {
            assert forall|i: int, j: int| 0 <= i < ks.len() && 0 <= j < ks.len() && i != j implies ks[i]
                != ks[j] by {
                if i < j {
                    assert(str_order(s@[i].0, s@[j].0) < 0);
                    lemma_str_order_eq(ks[i], ks[j]);
                } else {
                    assert(str_order(s@[j].0, s@[i].0) < 0);
                    lemma_str_order_eq(ks[j], ks[i]);
                }
            }
        }
        ks.unique_seq_to_set();
        vstd::seq_lib::seq_to_set_is_finite(ks);
    }

    /// What a read gives back after a write: once an identifier is inserted, its key maps to
    /// its value, every other key keeps its value or its absence, and the set grows by one
    /// exactly when the key was new.
    pub proof fn lemma_insert_then_get(
        before: DomainIdentifierSet,
        after: DomainIdentifierSet,
        key: Seq<char>,
        value: IdValue,
    )
        requires
            before.wf(),
            after.wf(),
            after.as_map() == before.as_map().insert(key, value),
        ensures
            after.as_map().contains_key(key),
            after.as_map()[key] == value,
            forall|k: Seq<char>|
                k != key ==> (#[trigger] after.as_map().contains_key(k) == before.as_map().contains_key(k)
                    && (before.as_map().contains_key(k) ==> after.as_map()[k] == before.as_map()[k])),
            after@.len() == if before.as_map().contains_key(key) {
                before@.len()
            } else {
                before@.len() + 1
            },
    {
        Self::lemma_len_is_key_count(before);
        Self::lemma_len_is_key_count(after);
        if before.as_map().contains_key(key) {
            assert(after.as_map().dom() =~= before.as_map().dom());
        } else {
            assert(after.as_map().dom() =~= before.as_map().dom().insert(key));
        }
    }

    /// An empty set.
    pub fn empty() -> (r: DomainIdentifierSet)
        ensures
            r.wf(),
            r@ == Seq::<(Seq<char>, IdValue)>::empty(),
    {
        let r = DomainIdentifierSet { entries: Vec::new() };
        assert(r@ =~= Seq::<(Seq<char>, IdValue)>::empty());
        r
    }

    /// Creates a set from pairs, a later pair replacing an earlier one with the same key.
    pub fn new(domain_identifiers: Vec<DomainIdentifier>) -> (r: DomainIdentifierSet)
        ensures
            r.wf(),
            r.as_map() == pairs_map(domain_identifiers@.map_values(|e: DomainIdentifier| e@)),
    {
        let ghost pairs = domain_identifiers@.map_values(|e: DomainIdentifier| e@);
        let mut r = DomainIdentifierSet::empty();
        proof {
            assert(r.as_map() =~= Map::empty());
            assert(pairs.take(0) =~= Seq::empty());
        }
        let n = domain_identifiers.len();
        let mut i: usize = 0;
        while i < n
            invariant
                n == pairs.len(),
                n == domain_identifiers@.len(),
                pairs == domain_identifiers@.map_values(|e: DomainIdentifier| e@),
                i <= n,
                r.wf(),
                r.as_map() == pairs_map(pairs.take(i as int)),
            decreases n - i,
        {
            let e = domain_identifiers[i].clone();
            proof {
                assert(e@ == pairs[i as int]);
                assert(pairs.take(i + 1).drop_last() =~= pairs.take(i as int));
            }
            r.insert(e);
            i = i + 1;
        }
        proof {
            assert(pairs.take(n as int) =~= pairs);
        }
        r
    }

    /// Number of identifiers in the set.
    pub fn len(&self) -> (r: usize)
        ensures
            r == self@.len(),
            r == self.as_map().dom().len(),
    {
        proof {
            use_type_invariant(self);
            Self::lemma_len_is_key_count(*self);
        }
        self.entries.len()
    }

    /// Whether the set is empty.
    pub fn is_empty(&self) -> (r: bool)
        ensures
            r == (self@.len() == 0),
    {
        self.entries.len() == 0
    }

    /// The identifier at position `i` in key order.
    pub fn entry(&self, i: usize) -> (r: &DomainIdentifier)
        requires
            i < self@.len(),
        ensures
            r@ == self@[i as int],
    {
        &self.entries[i]
    }

    /// The first position whose key is not below `key`, and whether it holds `key`.
    fn position(&self, key: &Identifier) -> (r: (usize, bool))
        requires
            self.wf(),
        ensures
            r.0 <= self@.len(),
            forall|j: int| 0 <= j < r.0 ==> str_order(#[trigger] self@[j].0, key@) < 0,
            r.1 ==> r.0 < self@.len() && self@[r.0 as int].0 == key@,
            !r.1 ==> forall|j: int| r.0 <= j < self@.len() ==> str_order(#[trigger] self@[j].0, key@) > 0,
    {
        let mut i: usize = 0;
        while i < self.entries.len()
            invariant
                self.wf(),
                i <= self@.len(),
                self@.len() == self.entries@.len(),
                forall|j: int| 0 <= j < i ==> str_order(#[trigger] self@[j].0, key@) < 0,
            decreases self.entries@.len() - i,
        {
            let c = compare(self.entries[i].key.into_inner(), key.into_inner());
            proof {
                assert(self@[i as int].0 == self.entries@[i as int].key@);
                lemma_str_order_eq(self@[i as int].0, key@);
            }
            if c == 0 {
                return (i, true);
            }
            if c > 0 {
                proof {
                    assert forall|j: int| i <= j < self@.len() implies str_order(#[trigger] self@[j].0, key@) > 0 by {
                        if j > i {
                            assert(str_order(self@[i as int].0, self@[j].0) < 0);
                            lemma_str_order_eq(self@[j].0, self@[i as int].0);
                            lemma_str_order_eq(key@, self@[i as int].0);
                            lemma_str_order_trans(key@, self@[i as int].0, self@[j].0);
                            lemma_str_order_eq(key@, self@[j].0);
                        }
                    }
                }
                return (i, false);
            }
            i = i + 1;
        }
        (i, false)
    }

    /// The value of `key`, if the set holds it.
    pub fn get(&self, key: &Identifier) -> (r: Option<&IdentifierValue>)
        ensures
            r is Some <==> self.as_map().contains_key(key@),
            r matches Some(v) ==> v@ == self.as_map()[key@],
    {
        proof {
            use_type_invariant(self);
        }
        let (p, found) = self.position(key);
        if found {
            proof {
                lemma_entries_map_at(self@, p as int);
            }
            Some(&self.entries[p].value)
        } else {
            proof {
                if self.as_map().contains_key(key@) {
                    let j = choose|j: int| 0 <= j < self@.len() && (#[trigger] self@[j]).0 == key@;
                    lemma_str_order_eq(key@, key@);
                    if j < p {
                        assert(str_order(self@[j].0, key@) < 0);
                    } else {
                        assert(str_order(self@[j].0, key@) > 0);
                    }
                }
            }
            None
        }
    }

    /// Inserts an identifier, replacing the value of its key when present.
    pub fn insert(&mut self, domain_identifier: DomainIdentifier)
        ensures
            final(self).wf(),
            final(self).as_map() == old(self).as_map().insert(domain_identifier.key@, domain_identifier.value@),
    {
        proof {
            use_type_invariant(&*self);
        }
        let ghost s = self@;
        let ghost k = domain_identifier.key@;
        let ghost v = domain_identifier.value@;
        let (p, found) = self.position(&domain_identifier.key);
        let mut entries: Vec<DomainIdentifier> = Vec::new();
        std::mem::swap(&mut entries, &mut self.entries);
        if found {
            entries.set(p, domain_identifier);
            proof {
                let ns = entries@.map_values(|e: DomainIdentifier| e@);
                assert(ns =~= s.update(p as int, (k, v)));
                assert(sorted_entries(ns)) by {
                    assert forall|i: int, j: int| 0 <= i < j < ns.len() implies str_order(#[trigger] ns[i].0, #[trigger] ns[j].0) < 0 by {
                        assert(str_order(s[i].0, s[j].0) < 0);
                    }
                }
                lemma_map_after_update(s, p as int, k, v);
            }
        } else {
            entries.insert(p, domain_identifier);
            proof {
                let ns = entries@.map_values(|e: DomainIdentifier| e@);
                assert(ns =~= s.insert(p as int, (k, v)));
                assert(sorted_entries(ns)) by {
                    assert forall|i: int, j: int| 0 <= i < j < ns.len() implies str_order(#[trigger] ns[i].0, #[trigger] ns[j].0) < 0 by {
                        if i < p && j < p {
                            assert(str_order(s[i].0, s[j].0) < 0);
                        } else if i < p && j == p {
                            assert(str_order(s[i].0, k) < 0);
                        } else if i < p {
                            assert(str_order(s[i].0, s[j - 1].0) < 0);
                        } else if i == p {
                            assert(str_order(s[j - 1].0, k) > 0);
                            lemma_str_order_eq(s[j - 1].0, k);
                        } else {
                            assert(str_order(s[i - 1].0, s[j - 1].0) < 0);
                        }
                    }
                }
                lemma_map_after_insert(s, p as int, k, v);
            }
        }
        self.entries = entries;
    }
}

impl Clone for DomainIdentifierSet {
    fn clone(&self) -> (r: Self)
        ensures
            r@ == self@,
    {
        proof {
            use_type_invariant(self);
        }
        let mut entries: Vec<DomainIdentifier> = Vec::new();
        let mut i: usize = 0;
        while i < self.entries.len()
            invariant
                i <= self.entries@.len(),
                entries@.len() == i,
                forall|j: int| 0 <= j < i ==> entries@[j] == self.entries@[j],
            decreases self.entries@.len() - i,
        {
            entries.push(self.entries[i].clone());
            i = i + 1;
        }
        proof {
            assert(entries@ =~= self.entries@);
        }
        DomainIdentifierSet { entries }
    }
}

impl PartialEq for DomainIdentifierSet {
    fn eq(&self, other: &Self) -> (r: bool) {
        if self.entries.len() != other.entries.len() {
            proof {
                assert(self@.len() != other@.len());
            }
            return false;
        }
        let mut i: usize = 0;
        while i < self.entries.len()
            invariant
                self.entries@.len() == other.entries@.len(),
                i <= self.entries@.len(),
                forall|j: int| 0 <= j < i ==> (#[trigger] self@[j]) == other@[j],
            decreases self.entries@.len() - i,
        {
            if self.entries[i] != other.entries[i] {
                proof {
                    assert(self@[i as int] == self.entries@[i as int]@);
                    assert(other@[i as int] == other.entries@[i as int]@);
                }
                return false;
            }
            i = i + 1;
        }
        proof {
            assert(self@ =~= other@);
        }
        true
    }
}

impl vstd::std_specs::cmp::PartialEqSpecImpl for DomainIdentifierSet {
    open spec fn obeys_eq_spec() -> bool {
        true
    }

    open spec fn eq_spec(&self, other: &DomainIdentifierSet) -> bool {
        self@ == other@
    }
}

impl Eq for DomainIdentifierSet {}

/// The map of a sequence of pairs in which a later pair replaces an earlier one with the same key.
pub open spec fn pairs_map(pairs: Seq<(Seq<char>, IdValue)>) -> Map<Seq<char>, IdValue>
    decreases pairs.len(),
{
    if pairs.len() == 0 {
        Map::empty()
    } else {
        pairs_map(pairs.drop_last()).insert(pairs.last().0, pairs.last().1)
    }
}

proof fn lemma_map_after_update(s: Seq<(Seq<char>, IdValue)>, p: int, k: Seq<char>, v: IdValue)
    requires
        sorted_entries(s),
        sorted_entries(s.update(p, (k, v))),
        0 <= p < s.len(),
        s[p].0 == k,
    ensures
        entries_map(s.update(p, (k, v))) == entries_map(s).insert(k, v),
{
    let ns = s.update(p, (k, v));
    assert forall|key: Seq<char>| #[trigger] has_key(ns, key) == has_key(s, key) by {
        if has_key(s, key) {
            let i = choose|i: int| 0 <= i < s.len() && (#[trigger] s[i]).0 == key;
            assert(ns[i].0 == key);
        }
        if has_key(ns, key) {
            let i = choose|i: int| 0 <= i < ns.len() && (#[trigger] ns[i]).0 == key;
            assert(s[i].0 == key);
        }
    }
    assert forall|key: Seq<char>| #[trigger] entries_map(ns).contains_key(key) implies entries_map(ns)[key] == entries_map(s).insert(k, v)[key] by {
        let i = choose|i: int| 0 <= i < ns.len() && (#[trigger] ns[i]).0 == key;
        lemma_entries_map_at(ns, i);
        lemma_entries_map_at(s, i);
        lemma_str_order_eq(k, k);
        if i != p && key == k {
            if i < p {
                assert(str_order(ns[i].0, ns[p].0) < 0);
            } else {
                assert(str_order(ns[p].0, ns[i].0) < 0);
            }
        }
    }
    assert(entries_map(ns) =~= entries_map(s).insert(k, v));
}

proof fn lemma_map_after_insert(s: Seq<(Seq<char>, IdValue)>, p: int, k: Seq<char>, v: IdValue)
    requires
        sorted_entries(s),
        sorted_entries(s.insert(p, (k, v))),
        0 <= p <= s.len(),
    ensures
        entries_map(s.insert(p, (k, v))) == entries_map(s).insert(k, v),
{
    let ns = s.insert(p, (k, v));
    assert(ns[p].0 == k);
    assert forall|key: Seq<char>| #[trigger] has_key(ns, key) == (has_key(s, key) || key == k) by {
        if has_key(s, key) {
            let i = choose|i: int| 0 <= i < s.len() && (#[trigger] s[i]).0 == key;
            if i < p {
                assert(ns[i].0 == key);
            } else {
                assert(ns[i + 1].0 == key);
            }
        }
        if has_key(ns, key) {
            let i = choose|i: int| 0 <= i < ns.len() && (#[trigger] ns[i]).0 == key;
            if i < p {
                assert(s[i].0 == key);
            } else if i > p {
                assert(s[i - 1].0 == key);
            }
        }
    }
    assert forall|key: Seq<char>| #[trigger] entries_map(ns).contains_key(key) implies entries_map(ns)[key] == entries_map(s).insert(k, v)[key] by {
        let i = choose|i: int| 0 <= i < ns.len() && (#[trigger] ns[i]).0 == key;
        lemma_entries_map_at(ns, i);
        lemma_entries_map_at(ns, p);
        if i < p {
            lemma_entries_map_at(s, i);
        } else if i > p {
            lemma_entries_map_at(s, i - 1);
        }
    }
    assert(entries_map(ns) =~= entries_map(s).insert(k, v));
}

} // verus!
