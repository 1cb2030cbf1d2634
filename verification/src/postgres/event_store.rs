//! What the PostgreSQL event store computes around its queries: the SQL that streams the
//! events of a query, the SQL that checks an append against concurrent writes, the pairing
//! of stored IDs with appended events, and the recognition of a serialization conflict.
use vstd::prelude::*;

use crate::event::{Event, PersistedEvent};
use crate::postgres::criteria::{criteria_pieces, events_known, render_inline};
use crate::postgres::query_builder::CriteriaBuilder;
use crate::stream_query::{with_origin, StreamQuery};
use crate::utils::eq;

verus! {

/// The SQL text before the criteria in the streaming query.
pub open spec fn stream_sql_head() -> Seq<char> {
    "SELECT event.event_id, event.payload, epoch.__epoch_id\n            FROM (SELECT COALESCE(MAX(event_id),0) AS __epoch_id FROM event) AS epoch\n            LEFT JOIN event ON event.event_id <= epoch.__epoch_id AND ("@
}

/// The SQL text after the criteria in the streaming query.
pub open spec fn stream_sql_tail() -> Seq<char> {
    ")\n            ORDER BY event_id ASC"@
}

/// The SQL that streams, in ID order, the events the query selects among those stored up
/// to the current epoch (the greatest stored ID), each row carrying that epoch; a store
/// with no matching event yields one row holding only the epoch.
pub fn stream_sql<QE: Event>(query: &StreamQuery<QE>) -> (r: String)
    requires
        events_known(query@, QE::spec_schema()),
    ensures
        r@ == stream_sql_head() + render_inline(criteria_pieces(query@, QE::spec_schema(), Seq::empty()))
            + stream_sql_tail(),
{
    let criteria = CriteriaBuilder::new(query).build();
    let mut sql = String::from_str(
        "SELECT event.event_id, event.payload, epoch.__epoch_id\n            FROM (SELECT COALESCE(MAX(event_id),0) AS __epoch_id FROM event) AS epoch\n            LEFT JOIN event ON event.event_id <= epoch.__epoch_id AND (",
    );
    sql.append(criteria.as_str());
    sql.append(")\n            ORDER BY event_id ASC");
    sql
}

/// The SQL that tells whether an event that the query selects was stored after `version`:
/// when it answers true, an append decided on the state at `version` is refused.
pub fn append_check_sql<QE: Event>(query: &StreamQuery<QE>, version: i64) -> (r: String)
    requires
        events_known(query@, QE::spec_schema()),
    ensures
        r@ == "SELECT EXISTS (SELECT 1 FROM event WHERE "@ + render_inline(
            criteria_pieces(with_origin(query@, version), QE::spec_schema(), Seq::empty()),
        ) + ")"@,
{
    let from_version = query.clone().change_origin(version);
    proof {
        assert forall|i: int, e: Seq<char>|
            0 <= i < from_version@.len() && #[trigger] crate::event::has_str(
                crate::postgres::criteria::active_events(from_version@[i]),
                e,
            ) implies crate::event::first_info(QE::spec_schema().events_info@, e) is Some by {
            assert(crate::postgres::criteria::active_events(from_version@[i]) == crate::postgres::criteria::active_events(
                query@[i],
            ));
        }
    }
    let criteria = CriteriaBuilder::new(&from_version).build();
    let mut sql = String::from_str("SELECT EXISTS (SELECT 1 FROM event WHERE ");
    sql.append(criteria.as_str());
    sql.append(")");
    sql
}

/// The appended events paired, in order, with the IDs the store returned for them; a
/// surplus on either side is left out.
pub fn persisted_events<E: Event>(event_ids: &Vec<i64>, events: Vec<E>) -> (r: Vec<PersistedEvent<E>>)
    ensures
        r@.len() == if event_ids@.len() < events@.len() { event_ids@.len() } else { events@.len() },
        forall|i: int| 0 <= i < r@.len() ==> (#[trigger] r@[i]).id == event_ids@[i] && r@[i].event == events@[i],
{
    let n = if event_ids.len() < events.len() { event_ids.len() } else { events.len() };
    let ghost all = events@;
    let mut rest = events;
    let mut out: Vec<PersistedEvent<E>> = Vec::new();
    let mut i: usize = 0;
    while i < n
        invariant
            n <= event_ids@.len(),
            n <= all.len(),
            i <= n,
            rest@ == all.subrange(i as int, all.len() as int),
            out@.len() == i,
            forall|j: int| 0 <= j < i ==> (#[trigger] out@[j]).id == event_ids@[j] && out@[j].event == all[j],
        decreases n - i,
    {
        let e = rest.remove(0);
        out.push(PersistedEvent::new(event_ids[i], e));
        proof {
            assert(rest@ =~= all.subrange(i + 1, all.len() as int));
        }
        i = i + 1;
    }
    out
}

/// Whether a database error code is PostgreSQL's serialization failure (`40001`), which a
/// concurrent append causes at commit.
pub fn is_serialization_failure(code: Option<&str>) -> (r: bool)
    ensures
        r == (code matches Some(c) && c@ == "40001"@),
{
    match code {
        Some(c) => eq(c, "40001"),
        None => false,
    }
}

} // verus!
