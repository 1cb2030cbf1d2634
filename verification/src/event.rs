//! Events: the schema of the supported events, the `Event` trait that user event types
//! implement, and the wrapper of an event persisted in the event store.
use vstd::prelude::*;

use crate::domain_identifier::{entries_map, DomainIdentifierSet};
use crate::identifier::{IdValue, Identifier, IdentifierType};
use crate::stream_query::contains_name;
use crate::utils::{compare, eq, lemma_str_order_eq, lemma_str_order_trans, str_order};

verus! {

/// The ID type of persisted events.
pub trait EventId: Copy {}

impl EventId for i64 {}

/// The views of a slice of strings.
pub open spec fn strs_view(s: Seq<&str>) -> Seq<Seq<char>> {
    s.map_values(|x: &str| x@)
}

/// Whether the string `x` occurs in `s`.
pub open spec fn has_str(s: Seq<Seq<char>>, x: Seq<char>) -> bool {
    exists|i: int| 0 <= i < s.len() && s[i] == x
}

/// The name of an event and the domain identifiers it carries.
#[derive(Debug)]
pub struct EventInfo {
    /// The name of the event.
    pub name: &'static str,
    /// The domain identifiers associated with the event.
    pub domain_identifiers: &'static [&'static Identifier],
}

impl EventInfo {
    /// The keys of the domain identifiers the event carries.
    pub open spec fn identifier_keys(&self) -> Seq<Seq<char>> {
        self.domain_identifiers@.map_values(|id: &Identifier| id@)
    }

    /// Whether the event carries the given domain identifier.
    pub fn has_domain_identifier(&self, ident: &Identifier) -> (r: bool)
        ensures
            r == has_str(self.identifier_keys(), ident@),
    {
        let ids = self.domain_identifiers;
        let mut i: usize = 0;
        while i < ids.len()
            invariant
                ids@ == self.domain_identifiers@,
                i <= ids@.len(),
                forall|j: int| 0 <= j < i ==> (#[trigger] self.identifier_keys()[j]) != ident@,
            decreases ids@.len() - i,
        {
            if eq(ids[i].into_inner(), ident.into_inner()) {
                proof {
                    assert(self.identifier_keys()[i as int] == ident@);
                }
                return true;
            }
            i = i + 1;
        }
        false
    }
}

/// A domain identifier and the type of its values.
#[derive(Debug, Clone, Copy)]
pub struct DomainIdentifierInfo {
    /// The domain identifier.
    pub ident: Identifier,
    /// The type of the domain identifier.
    pub type_info: IdentifierType,
}

/// The events of a stream of a larger event type: those of `events` that the stream names,
/// in the order of `events`.
pub open spec fn stream_events_of(events: Seq<Seq<char>>, selected: Seq<Seq<char>>) -> Seq<Seq<char>> {
    events.filter(|e: Seq<char>| has_str(selected, e))
}

/// The events of a stream: those of `events` named in `selected`, in the order of `events`;
/// names of `selected` that are not events are ignored.
pub fn stream_events(events: &[&'static str], selected: &[&'static str]) -> (r: Vec<&'static str>)
    ensures
        strs_view(r@) == stream_events_of(strs_view(events@), strs_view(selected@)),
{
    let ghost all = strs_view(events@);
    let ghost sel = strs_view(selected@);
    let mut out: Vec<&'static str> = Vec::new();
    let mut i: usize = 0;
    while i < events.len()
        invariant
            i <= events@.len(),
            all == strs_view(events@),
            sel == strs_view(selected@),
            strs_view(out@) == stream_events_of(all.take(i as int), sel),
        decreases events@.len() - i,
    {
        let name = events[i];
        let keep = contains_name(selected, name);
        proof {
            assert(all.take(i + 1) =~= all.take(i as int).push(name@));
            assert(all.take(i + 1).drop_last() =~= all.take(i as int));
            reveal(Seq::filter);
        }
        if keep {
            out.push(name);
        }
        proof {
            assert(strs_view(out@) =~= stream_events_of(all.take(i + 1), sel));
        }
        i = i + 1;
    }
    proof {
        assert(all.take(i as int) =~= all);
    }
    out
}

/// No two infos give the same domain identifier different types.
pub open spec fn types_consistent(infos: Seq<&DomainIdentifierInfo>) -> bool {
    forall|i: int, j: int|
        0 <= i < infos.len() && 0 <= j < infos.len() && (#[trigger] infos[i]).ident@ == (
        #[trigger] infos[j]).ident@ ==> infos[i].type_info == infos[j].type_info
}

/// Whether `infos[k]` is the first info of its domain identifier.
pub open spec fn first_of_its_ident(infos: Seq<&DomainIdentifierInfo>, k: int) -> bool {
    forall|j: int| 0 <= j < k ==> (#[trigger] infos[j]).ident@ != infos[k].ident@
}

/// The infos are strictly ascending by identifier, in the order of `compare`.
pub open spec fn ascending_by_ident(infos: Seq<&DomainIdentifierInfo>) -> bool {
    forall|i: int, j: int|
        0 <= i < j < infos.len() ==> str_order((#[trigger] infos[i]).ident@, (#[trigger] infos[j]).ident@)
            < 0
}

/// Whether `x` is, among `infos[..k]`, the first info of its identifier.
pub open spec fn first_info_before(infos: Seq<&DomainIdentifierInfo>, x: &DomainIdentifierInfo, k: int) -> bool {
    exists|m: int| 0 <= m < k && #[trigger] infos[m] == x && first_of_its_ident(infos, m)
}

/// Whether some info of `out` has the identifier `id`.
pub open spec fn has_ident(out: Seq<&DomainIdentifierInfo>, id: Seq<char>) -> bool {
    exists|i: int| 0 <= i < out.len() && (#[trigger] out[i]).ident@ == id
}

/// Each info of `out` is the first info of its identifier among `infos[..k]`.
pub open spec fn drawn_from_firsts(
    infos: Seq<&DomainIdentifierInfo>,
    out: Seq<&DomainIdentifierInfo>,
    k: int,
) -> bool {
    forall|i: int| 0 <= i < out.len() ==> first_info_before(infos, #[trigger] out[i], k)
}

/// Every identifier of `infos[..k]` has an info in `out`.
pub open spec fn covers_idents(
    infos: Seq<&DomainIdentifierInfo>,
    out: Seq<&DomainIdentifierInfo>,
    k: int,
) -> bool {
    forall|m: int| 0 <= m < k ==> has_ident(out, (#[trigger] infos[m]).ident@)
}

/// `out` is the set of the domain identifiers of `infos`: ascending by identifier, each
/// one the first info of its identifier in `infos`, and every identifier of `infos` in it.
pub open spec fn unique_infos_of(
    infos: Seq<&DomainIdentifierInfo>,
    out: Seq<&DomainIdentifierInfo>,
) -> bool {
    &&& ascending_by_ident(out)
    &&& drawn_from_firsts(infos, out, infos.len() as int)
    &&& covers_idents(infos, out, infos.len() as int)
}

/// An info placed between the infos below it and those above it keeps them ascending.
proof fn lemma_insert_ascending(out: Seq<&DomainIdentifierInfo>, p: int, x: &DomainIdentifierInfo)
    requires
        0 <= p <= out.len(),
        ascending_by_ident(out),
        forall|i: int| 0 <= i < p ==> str_order((#[trigger] out[i]).ident@, x.ident@) < 0,
        p == out.len() || str_order(x.ident@, out[p].ident@) < 0,
    ensures
        ascending_by_ident(out.insert(p, x)),
{
    let n = out.insert(p, x);
    assert forall|i: int, j: int| 0 <= i < j < n.len() implies str_order(
        (#[trigger] n[i]).ident@,
        (#[trigger] n[j]).ident@,
    ) < 0 by {
        if j < p {
            assert(n[i] == out[i] && n[j] == out[j]);
        } else if j == p {
            assert(n[i] == out[i]);
        } else {
            assert(n[j] == out[j - 1]);
            if j - 1 > p {
                lemma_str_order_trans(x.ident@, out[p].ident@, out[j - 1].ident@);
            }
            if i < p {
                assert(n[i] == out[i]);
                lemma_str_order_trans(out[i].ident@, x.ident@, out[j - 1].ident@);
            } else if i > p {
                assert(n[i] == out[i - 1]);
            }
        }
    }
}

/// The identifier of an info that sorts strictly between the infos of `out` is in none of them.
proof fn lemma_new_ident(out: Seq<&DomainIdentifierInfo>, p: int, x: &DomainIdentifierInfo)
    requires
        0 <= p <= out.len(),
        ascending_by_ident(out),
        forall|i: int| 0 <= i < p ==> str_order((#[trigger] out[i]).ident@, x.ident@) < 0,
        p == out.len() || str_order(x.ident@, out[p].ident@) < 0,
    ensures
        !has_ident(out, x.ident@),
{
    if has_ident(out, x.ident@) {
        let i = choose|i: int| 0 <= i < out.len() && (#[trigger] out[i]).ident@ == x.ident@;
        lemma_str_order_eq(out[i].ident@, x.ident@);
        if i > p {
            lemma_str_order_trans(x.ident@, out[p].ident@, out[i].ident@);
            lemma_str_order_eq(x.ident@, out[i].ident@);
        }
    }
}

/// Inserting the next info at its place, when its identifier is new, keeps the infos
/// drawn from first infos and covering all identifiers seen.
proof fn lemma_insert_new_ident(
    infos: Seq<&DomainIdentifierInfo>,
    out: Seq<&DomainIdentifierInfo>,
    k: int,
    p: int,
)
    requires
        0 <= k < infos.len(),
        0 <= p <= out.len(),
        drawn_from_firsts(infos, out, k),
        covers_idents(infos, out, k),
        !has_ident(out, infos[k].ident@),
    ensures
        drawn_from_firsts(infos, out.insert(p, infos[k]), k + 1),
        covers_idents(infos, out.insert(p, infos[k]), k + 1),
{
    let x = infos[k];
    let n = out.insert(p, x);
    assert(first_of_its_ident(infos, k)) by {
        assert forall|m: int| 0 <= m < k implies (#[trigger] infos[m]).ident@ != infos[k].ident@ by {
            assert(has_ident(out, infos[m].ident@));
        }
    }
    assert forall|i: int| 0 <= i < n.len() implies first_info_before(infos, #[trigger] n[i], k + 1) by {
        if i < p {
            assert(n[i] == out[i]);
            assert(first_info_before(infos, out[i], k));
        } else if i == p {
            assert(infos[k] == n[i]);
        } else {
            assert(n[i] == out[i - 1]);
            assert(first_info_before(infos, out[i - 1], k));
        }
    }
    assert forall|m: int| 0 <= m < k + 1 implies has_ident(n, (#[trigger] infos[m]).ident@) by {
        if m == k {
            assert(n[p] == x);
        } else {
            assert(has_ident(out, infos[m].ident@));
            let i = choose|i: int| 0 <= i < out.len() && (#[trigger] out[i]).ident@ == infos[m].ident@;
            if i < p {
                assert(n[i] == out[i]);
            } else {
                assert(n[i + 1] == out[i]);
            }
        }
    }
}

/// Two lists ascending by identifier that hold the same infos are the same list.
proof fn lemma_ascending_same_infos(a: Seq<&DomainIdentifierInfo>, b: Seq<&DomainIdentifierInfo>)
    requires
        ascending_by_ident(a),
        ascending_by_ident(b),
        forall|i: int| 0 <= i < a.len() ==> b.contains(#[trigger] a[i]),
        forall|j: int| 0 <= j < b.len() ==> a.contains(#[trigger] b[j]),
    ensures
        a == b,
    decreases a.len(),
{
    if a.len() == 0 {
        if b.len() > 0 {
            assert(a.contains(b[0]));
        }
        assert(a =~= b);
    } else {
        if b.len() == 0 {
            assert(b.contains(a[0]));
        }
        assert(b.contains(a[0]));
        assert(a.contains(b[0]));
        let j = choose|j: int| 0 <= j < b.len() && b[j] == a[0];
        let i = choose|i: int| 0 <= i < a.len() && a[i] == b[0];
        lemma_str_order_eq(a[0].ident@, a[0].ident@);
        if j > 0 {
            assert(str_order(b[0].ident@, b[j].ident@) < 0);
            if i > 0 {
                assert(str_order(a[0].ident@, a[i].ident@) < 0);
                lemma_str_order_trans(a[0].ident@, b[0].ident@, a[0].ident@);
            }
        }
        assert(a[0] == b[0]);
        let a1 = a.drop_first();
        let b1 = b.drop_first();
        assert forall|x: int| 0 <= x < a1.len() implies b1.contains(#[trigger] a1[x]) by {
            assert(a[x + 1] == a1[x]);
            assert(b.contains(a[x + 1]));
            let y = choose|y: int| 0 <= y < b.len() && b[y] == a[x + 1];
            assert(str_order(a[0].ident@, a[x + 1].ident@) < 0);
            if y == 0 {
                lemma_str_order_eq(a[0].ident@, a[x + 1].ident@);
            }
            assert(b1[y - 1] == b[y]);
        }
        assert forall|y: int| 0 <= y < b1.len() implies a1.contains(#[trigger] b1[y]) by {
            assert(b[y + 1] == b1[y]);
            assert(a.contains(b[y + 1]));
            let x = choose|x: int| 0 <= x < a.len() && a[x] == b[y + 1];
            assert(str_order(b[0].ident@, b[y + 1].ident@) < 0);
            if x == 0 {
                lemma_str_order_eq(b[0].ident@, b[y + 1].ident@);
            }
            assert(a1[x - 1] == a[x]);
        }
        lemma_ascending_same_infos(a1, b1);
        assert(a =~= seq![a[0]] + a1);
        assert(b =~= seq![b[0]] + b1);
    }
}

/// Each info of one list of the domain identifiers of `infos` is in any other.
proof fn lemma_unique_infos_contained(
    infos: Seq<&DomainIdentifierInfo>,
    a: Seq<&DomainIdentifierInfo>,
    b: Seq<&DomainIdentifierInfo>,
)
    requires
        unique_infos_of(infos, a),
        unique_infos_of(infos, b),
    ensures
        forall|i: int| 0 <= i < a.len() ==> b.contains(#[trigger] a[i]),
{
    assert forall|i: int| 0 <= i < a.len() implies b.contains(#[trigger] a[i]) by {
        assert(first_info_before(infos, a[i], infos.len() as int));
        let m = choose|m: int|
            0 <= m < infos.len() && #[trigger] infos[m] == a[i] && first_of_its_ident(infos, m);
        assert(has_ident(b, infos[m].ident@));
        let j = choose|j: int| 0 <= j < b.len() && (#[trigger] b[j]).ident@ == infos[m].ident@;
        assert(first_info_before(infos, b[j], infos.len() as int));
        let m2 = choose|m2: int|
            0 <= m2 < infos.len() && #[trigger] infos[m2] == b[j] && first_of_its_ident(infos, m2);
        if m < m2 {
            assert(infos[m].ident@ != infos[m2].ident@);
        } else if m2 < m {
            assert(infos[m2].ident@ != infos[m].ident@);
        }
        assert(b[j] == a[i]);
    }
}

/// The domain identifiers of a set of infos are determined: two lists that are both
/// ascending by identifier, made of the first info of each identifier, and covering every
/// identifier, are the same list.
pub proof fn lemma_unique_infos_determined(
    infos: Seq<&DomainIdentifierInfo>,
    a: Seq<&DomainIdentifierInfo>,
    b: Seq<&DomainIdentifierInfo>,
)
    requires
        unique_infos_of(infos, a),
        unique_infos_of(infos, b),
    ensures
        a == b,
{
    lemma_unique_infos_contained(infos, a, b);
    lemma_unique_infos_contained(infos, b, a);
    lemma_ascending_same_infos(a, b);
}

/// Whether no two of the infos give one domain identifier two types.
pub fn has_consistent_types(infos: &[&'static DomainIdentifierInfo]) -> (r: bool)
    ensures
        r == types_consistent(infos@),
{
    let mut i: usize = 0;
    while i < infos.len()
        invariant
            i <= infos@.len(),
            forall|a: int, b: int|
                0 <= a < i && 0 <= b < infos@.len() && (#[trigger] infos@[a]).ident@ == (
                #[trigger] infos@[b]).ident@ ==> infos@[a].type_info == infos@[b].type_info,
        decreases infos@.len() - i,
    {
        let mut j: usize = 0;
        while j < infos.len()
            invariant
                i < infos@.len(),
                j <= infos@.len(),
                forall|a: int, b: int|
                    0 <= a < i && 0 <= b < infos@.len() && (#[trigger] infos@[a]).ident@ == (
                    #[trigger] infos@[b]).ident@ ==> infos@[a].type_info == infos@[b].type_info,
                forall|b: int|
                    0 <= b < j && infos@[i as int].ident@ == (#[trigger] infos@[b]).ident@
                        ==> infos@[i as int].type_info == infos@[b].type_info,
            decreases infos@.len() - j,
        {
            if eq(infos[i].ident.into_inner(), infos[j].ident.into_inner())
                && !same_type(infos[i].type_info, infos[j].type_info) {
                return false;
            }
            j = j + 1;
        }
        i = i + 1;
    }
    true
}

/// Whether two identifier types are the same.
fn same_type(a: IdentifierType, b: IdentifierType) -> (r: bool)
    ensures
        r == (a == b),
{
    match (a, b) {
        (IdentifierType::String, IdentifierType::String) => true,
        (IdentifierType::i64, IdentifierType::i64) => true,
        (IdentifierType::Uuid, IdentifierType::Uuid) => true,
        _ => false,
    }
}

/// The domain identifiers of a schema: the given infos sorted by identifier with `compare`,
/// each identifier kept once, by its first info.
pub fn unique_domain_identifiers(infos: &[&'static DomainIdentifierInfo]) -> (r: Vec<
    &'static DomainIdentifierInfo,
>)
    requires
        types_consistent(infos@),
    ensures
        unique_infos_of(infos@, r@),
{
    let mut out: Vec<&'static DomainIdentifierInfo> = Vec::new();
    let mut k: usize = 0;
    while k < infos.len()
        invariant
            k <= infos@.len(),
            ascending_by_ident(out@),
            drawn_from_firsts(infos@, out@, k as int),
            covers_idents(infos@, out@, k as int),
        decreases infos@.len() - k,
    {
        let x = infos[k];
        let mut p: usize = 0;
        while p < out.len()
            invariant
                p <= out@.len(),
                forall|i: int| 0 <= i < p ==> str_order((#[trigger] out@[i]).ident@, x.ident@) < 0,
            ensures
                p <= out@.len(),
                forall|i: int| 0 <= i < p ==> str_order((#[trigger] out@[i]).ident@, x.ident@) < 0,
                p == out@.len() || str_order(out@[p as int].ident@, x.ident@) >= 0,
            decreases out@.len() - p,
        {
            if compare(out[p].ident.into_inner(), x.ident.into_inner()) >= 0 {
                break;
            }
            p = p + 1;
        }
        if p < out.len() && compare(out[p].ident.into_inner(), x.ident.into_inner()) == 0 {
            proof {
                lemma_str_order_eq(out@[p as int].ident@, x.ident@);
                assert(has_ident(out@, infos@[k as int].ident@)) by {
                    assert(out@[p as int].ident@ == infos@[k as int].ident@);
                }
                assert(drawn_from_firsts(infos@, out@, k + 1)) by {
                    assert forall|i: int| 0 <= i < out@.len() implies first_info_before(
                        infos@,
                        #[trigger] out@[i],
                        k + 1,
                    ) by {
                        assert(first_info_before(infos@, out@[i], k as int));
                    }
                }
            }
        } else {
            proof {
                if p < out@.len() {
                    lemma_str_order_eq(out@[p as int].ident@, x.ident@);
                }
                lemma_insert_ascending(out@, p as int, x);
                lemma_new_ident(out@, p as int, x);
                lemma_insert_new_ident(infos@, out@, k as int, p as int);
            }
            out.insert(p, x);
        }
        k = k + 1;
    }
    out
}

/// The schema of all supported events: their names, the domain identifiers each carries,
/// and the type of every domain identifier.
#[derive(Debug, Clone, Copy)]
pub struct EventSchema {
    pub events: &'static [&'static str],
    pub events_info: &'static [&'static EventInfo],
    pub domain_identifiers: &'static [&'static DomainIdentifierInfo],
}

/// The index of the first info named `name`, or `None`.
pub open spec fn first_info(infos: Seq<&EventInfo>, name: Seq<char>) -> Option<int> {
    if exists|i: int| 0 <= i < infos.len() && (#[trigger] infos[i]).name@ == name {
        Some(
            choose|i: int|
                0 <= i < infos.len() && (#[trigger] infos[i]).name@ == name && forall|j: int|
                    0 <= j < i ==> (#[trigger] infos[j]).name@ != name,
        )
    } else {
        None
    }
}

/// Among the indices of infos named `name`, there is a first one.
pub proof fn lemma_first_info(infos: Seq<&EventInfo>, name: Seq<char>, k: int)
    requires
        0 <= k < infos.len(),
        infos[k].name@ == name,
        forall|j: int| 0 <= j < k ==> (#[trigger] infos[j]).name@ != name,
    ensures
        first_info(infos, name) == Some(k),
{
    let i = choose|i: int|
        0 <= i < infos.len() && (#[trigger] infos[i]).name@ == name && forall|j: int|
            0 <= j < i ==> (#[trigger] infos[j]).name@ != name;
    assert(infos[k].name@ == name);
    if i < k {
        assert(infos[i].name@ != name);
    }
    if k < i {
        assert(infos[k].name@ != name);
    }
}

impl EventSchema {
    /// The names of the events.
    pub open spec fn event_names(&self) -> Seq<Seq<char>> {
        strs_view(self.events@)
    }

    /// The info of the event with the given name: the first one in `events_info`.
    pub fn event_info(&self, name: &str) -> (r: Option<&'static EventInfo>)
        ensures
            r is Some <==> first_info(self.events_info@, name@) is Some,
            r matches Some(info) ==> info == self.events_info@[first_info(self.events_info@, name@)->0],
    {
        let infos = self.events_info;
        let mut i: usize = 0;
        while i < infos.len()
            invariant
                infos@ == self.events_info@,
                i <= infos@.len(),
                forall|j: int| 0 <= j < i ==> (#[trigger] infos@[j]).name@ != name@,
            decreases infos@.len() - i,
        {
            if eq(infos[i].name, name) {
                proof {
                    lemma_first_info(infos@, name@, i as int);
                }
                return Some(infos[i]);
            }
            i = i + 1;
        }
        None
    }
}

/// An event: something of interest that happened in the system.
///
/// Event types implement this trait (usually by derive) to expose their schema,
/// their name and their domain identifiers.
pub trait Event: Sized {
    /// The schema of all the events of this type.
    closed spec fn spec_schema() -> EventSchema {
        arbitrary()
    }

    /// The name of this event.
    closed spec fn spec_name(&self) -> Seq<char> {
        arbitrary()
    }

    /// The domain identifiers of this event, in key order.
    closed spec fn spec_domain_identifiers(&self) -> Seq<(Seq<char>, IdValue)> {
        arbitrary()
    }

    /// Returns the schema of all supported events.
    fn schema() -> (r: EventSchema)
        ensures
            r == Self::spec_schema(),
    ;

    /// Retrieves the domain identifiers associated with the event.
    fn domain_identifiers(&self) -> (r: DomainIdentifierSet)
        ensures
            r@ == self.spec_domain_identifiers(),
    ;

    /// Retrieves the name of the event.
    fn name(&self) -> (r: &'static str)
        ensures
            r@ == self.spec_name(),
    ;
}

/// An event persisted in the event store, with the ID the store assigned to it.
#[derive(Debug)]
pub struct PersistedEvent<E: Event> {
    pub id: i64,
    pub event: E,
}

impl<E: Event + Clone> Clone for PersistedEvent<E> {
    fn clone(&self) -> (r: Self)
        ensures
            r.id == self.id,
            cloned(self.event, r.event),
    {
        PersistedEvent { id: self.id, event: self.event.clone() }
    }
}

impl<E: Event> std::ops::Deref for PersistedEvent<E> {
    type Target = E;

    /// The inner event.
    fn deref(&self) -> (r: &E)
        ensures
            *r == self.event,
    {
        &self.event
    }
}

impl<E: Event> PersistedEvent<E> {
    /// Creates a persisted event with the given ID and event.
    pub fn new(id: i64, event: E) -> (r: Self)
        ensures
            r.id == id,
            r.event == event,
    {
        PersistedEvent { id, event }
    }

    /// Returns the inner event.
    pub fn into_inner(self) -> (r: E)
        ensures
            r == self.event,
    {
        self.event
    }

    /// The ID assigned by the event store.
    pub fn id(&self) -> (r: i64)
        ensures
            r == self.id,
    {
        self.id
    }

    /// A reference to the inner event.
    pub fn event(&self) -> (r: &E)
        ensures
            *r == self.event,
    {
        &self.event
    }

    /// The map of the event's domain identifiers.
    pub open spec fn identifiers_map(&self) -> Map<Seq<char>, IdValue> {
        entries_map(self.event.spec_domain_identifiers())
    }
}

} // verus!
