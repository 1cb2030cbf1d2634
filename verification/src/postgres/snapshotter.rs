//! Snapshots of state parts: the key that identifies the query of a state, the ID under
//! which a snapshot is stored, and the rules for storing and reusing one.
use vstd::prelude::*;
use md5::{Digest, Md5};
use vstd::utf8::encode_utf8;

use crate::domain_identifier::DomainIdentifierSet;
use crate::event::{strs_view, Event};
use crate::identifier::{id_value_text, IdValue};
use crate::stream_query::{FilterView, StreamQuery};
use crate::text::{int_decimal, join, lemma_join_push, push_i64_decimal};
use crate::utils::eq;

verus! {

/// `k=v` for one domain identifier, the value in its display form.
pub open spec fn id_key(p: (Seq<char>, IdValue)) -> Seq<char> {
    p.0 + "="@ + id_value_text(p.1)
}

/// The key of one filter: `(origin|events-excluded|k=v,..)`.
pub open spec fn filter_key(f: FilterView) -> Seq<char> {
    "("@ + int_decimal(f.origin as int) + "|"@ + join(f.events, ","@) + match f.excluded {
        Some(ex) => "-"@ + join(ex, ","@),
        None => Seq::empty(),
    } + "|"@ + join(f.identifiers.map_values(|p: (Seq<char>, IdValue)| id_key(p)), ","@) + ")"@
}

/// The key of a query: the keys of its filters, one after the other.
pub open spec fn query_key_text(q: Seq<FilterView>) -> Seq<char> {
    join(q.map_values(|f: FilterView| filter_key(f)), Seq::empty())
}

/// Appends the strings joined by `sep`.
fn push_joined(out: &mut String, items: &[&str], sep: &str)
    ensures
        final(out)@ == old(out)@ + join(strs_view(items@), sep@),
{
    let ghost base = out@;
    let ghost all = strs_view(items@);
    let mut i: usize = 0;
    proof {
        assert(join(all.take(0), sep@) =~= Seq::<char>::empty());
        assert(out@ =~= base + join(all.take(0), sep@));
    }
    while i < items.len()
        invariant
            i <= items@.len(),
            all == strs_view(items@),
            out@ == base + join(all.take(i as int), sep@),
        decreases items@.len() - i,
    {
        let ghost prev = all.take(i as int);
        if i > 0 {
            out.append(sep);
        }
        out.append(items[i]);
        proof {
            assert(all[i as int] == items@[i as int]@);
            assert(all.take(i + 1) =~= prev.push(all[i as int]));
            lemma_join_push(prev, sep@, all[i as int]);
            if i == 0 {
                assert(join(prev, sep@) =~= Seq::<char>::empty());
            }
        }
        i = i + 1;
    }
    proof {
        assert(all.take(i as int) =~= all);
    }
}

/// Appends `k=v` for each identifier, joined by `,`.
fn push_id_keys(out: &mut String, ids: &DomainIdentifierSet)
    ensures
        final(out)@ == old(out)@ + join(ids@.map_values(|p: (Seq<char>, IdValue)| id_key(p)), ","@),
{
    let ghost base = out@;
    let ghost all = ids@;
    let ghost kf = |p: (Seq<char>, IdValue)| id_key(p);
    let n = ids.len();
    let mut i: usize = 0;
    proof {
        assert(join(all.take(0).map_values(kf), ","@) =~= Seq::<char>::empty());
        assert(out@ =~= base + join(all.take(0).map_values(kf), ","@));
    }
    while i < n
        invariant
            n == all.len(),
            i <= n,
            all == ids@,
            kf == (|p: (Seq<char>, IdValue)| id_key(p)),
            out@ == base + join(all.take(i as int).map_values(kf), ","@),
        decreases n - i,
    {
        let ghost prev = all.take(i as int);
        let entry = ids.entry(i);
        if i > 0 {
            out.append(",");
        }
        out.append(entry.key.into_inner());
        out.append("=");
        let v = entry.value.to_string();
        out.append(v.as_str());
        proof {
            assert(all[i as int] == entry@);
            assert(all.take(i + 1) =~= prev.push(entry@));
            assert(prev.push(entry@).map_values(kf) =~= prev.map_values(kf).push(kf(entry@)));
            lemma_join_push(prev.map_values(kf), ","@, kf(entry@));
            if i == 0 {
                assert(join(prev.map_values(kf), ","@) =~= Seq::<char>::empty());
            }
        }
        i = i + 1;
    }
    proof {
        assert(all.take(n as int) =~= all);
    }
}

/// The key of the query of a state: for each filter, its origin, its events and exclusions,
/// and its domain identifiers.
pub fn query_key<E: Event>(query: &StreamQuery<E>) -> (r: String)
    ensures
        r@ == query_key_text(query@),
{
    let filters = query.filters();
    let ghost q = query@;
    let ghost ff = |f: FilterView| filter_key(f);
    let mut result = String::new();
    let mut i: usize = 0;
    proof {
        assert(join(q.take(0).map_values(ff), Seq::<char>::empty()) =~= Seq::<char>::empty());
    }
    while i < filters.len()
        invariant
            i <= filters@.len(),
            q == query@,
            crate::stream_query::filters_view(filters@) == q,
            ff == (|f: FilterView| filter_key(f)),
            result@ == join(q.take(i as int).map_values(ff), Seq::<char>::empty()),
        decreases filters@.len() - i,
    {
        let ghost prev = q.take(i as int);
        let f = &filters[i];
        let ghost start = result@;
        result.append("(");
        push_i64_decimal(&mut result, f.origin());
        result.append("|");
        push_joined(&mut result, f.events(), ",");
        match f.excluded_events() {
            Some(ex) => {
                result.append("-");
                push_joined(&mut result, ex.as_slice(), ",");
            },
            None => {},
        }
        result.append("|");
        push_id_keys(&mut result, f.identifiers());
        result.append(")");
        proof {
            assert(q[i as int] == f@);
            assert(result@ =~= start + filter_key(f@));
            assert(q.take(i + 1) =~= prev.push(f@));
            assert(prev.push(f@).map_values(ff) =~= prev.map_values(ff).push(ff(f@)));
            lemma_join_push(prev.map_values(ff), Seq::<char>::empty(), ff(f@));
            if i == 0 {
                assert(join(prev.map_values(ff), Seq::<char>::empty()) =~= Seq::<char>::empty());
            }
            assert(result@ =~= join(q.take(i + 1).map_values(ff), Seq::<char>::empty()));
        }
        i = i + 1;
    }
    proof {
        assert(q.take(i as int) =~= q);
    }
    result
}

/// The MD5 digest of a byte string.
pub uninterp spec fn md5_digest(data: Seq<u8>) -> Seq<u8>;

/// Calls `md5::Md5` (`new`, `update`, `finalize`) on the bytes: the 16-byte digest, which
/// depends on the bytes alone.
#[verifier::external_body]
fn md5_of(data: &[u8]) -> (r: [u8; 16])
    ensures
        r@ == md5_digest(data@),
{
    let mut hasher = Md5::new();
    hasher.update(data);
    hasher.finalize().into()
}

/// The 128-bit value of the name-based (version 3) UUID of a name in a namespace.
pub uninterp spec fn uuid_v3_value(namespace: Seq<u8>, name: Seq<u8>) -> u128;

/// Calls `uuid::Uuid::new_v3` with the namespace UUID of the given bytes
/// (`Uuid::from_bytes`) and the name; the value (`Uuid::as_u128`) depends on both alone.
#[verifier::external_body]
fn uuid_v3_of(namespace: [u8; 16], name: &[u8]) -> (r: u128)
    ensures
        r == uuid_v3_value(namespace@, name@),
{
    uuid::Uuid::new_v3(&uuid::Uuid::from_bytes(namespace), name).as_u128()
}

/// The ID (a UUID, by its 128-bit value) of the snapshot of a state with the given name and
/// query key: the version 3 UUID of the query key in the namespace that the MD5 digest of
/// the state name makes.
pub fn snapshot_id(state_name: &str, query: &str) -> (r: u128)
    ensures
        r == uuid_v3_value(md5_digest(encode_utf8(state_name@)), encode_utf8(query@)),
{
    let digest = md5_of(state_name.as_bytes());
    uuid_v3_of(digest, query.as_bytes())
}

/// Whether a state part that counted `applied_events` events since it was loaded is worth
/// storing: only once more than `every` events were applied.
pub fn snapshot_due(applied_events: u64, every: u64) -> (r: bool)
    ensures
        r == (applied_events > every),
{
    applied_events > every
}

/// Whether a stored snapshot belongs to the state being loaded: the same state name and
/// the same query key.
pub fn snapshot_applies(state_name: &str, query: &str, stored_name: &str, stored_query: &str) -> (r: bool)
    ensures
        r == (state_name@ == stored_name@ && query@ == stored_query@),
{
    eq(state_name, stored_name) && eq(query, stored_query)
}

} // verus!
