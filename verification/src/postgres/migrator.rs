//! The SQL of the migrations of the PostgreSQL event store: a column and an index for every
//! domain identifier, and the replacement of hash indexes by B-tree ones.
use vstd::prelude::*;

use crate::event::{DomainIdentifierInfo, EventSchema};
pub use crate::identifier::is_reserved_name;
use crate::identifier::IdentifierType;
use crate::utils::eq;

verus! {

/// The SQL type of the column of a domain identifier.
pub open spec fn sql_type_text(t: IdentifierType) -> Seq<char> {
    match t {
        IdentifierType::String => "TEXT"@,
        IdentifierType::i64 => "BIGINT"@,
        IdentifierType::Uuid => "UUID"@,
    }
}

/// The SQL type of the column of a domain identifier.
pub fn sql_type(t: IdentifierType) -> (r: &'static str)
    ensures
        r@ == sql_type_text(t),
{
    match t {
        IdentifierType::String => "TEXT",
        IdentifierType::i64 => "BIGINT",
        IdentifierType::Uuid => "UUID",
    }
}

/// `ALTER TABLE table ADD COLUMN IF NOT EXISTS column type`.
pub fn add_column_sql(table: &str, domain_id: &DomainIdentifierInfo) -> (r: String)
    ensures
        r@ == "ALTER TABLE "@ + table@ + " ADD COLUMN IF NOT EXISTS "@ + domain_id.ident@ + " "@ + sql_type_text(
            domain_id.type_info,
        ),
{
    let mut sql = String::from_str("ALTER TABLE ");
    sql.append(table);
    sql.append(" ADD COLUMN IF NOT EXISTS ");
    sql.append(domain_id.ident.into_inner());
    sql.append(" ");
    sql.append(sql_type(domain_id.type_info));
    sql
}

/// The partial index on the column of a domain identifier, over the rows that have one.
pub fn column_index_sql(table: &str, column: &str) -> (r: String)
    ensures
        r@ == "CREATE INDEX IF NOT EXISTS idx_"@ + table@ + "_"@ + column@ + " ON "@ + table@ + " ("@ + column@
            + ") WHERE "@ + column@ + " IS NOT NULL"@,
{
    let mut sql = String::from_str("CREATE INDEX IF NOT EXISTS idx_");
    sql.append(table);
    sql.append("_");
    sql.append(column);
    sql.append(" ON ");
    sql.append(table);
    sql.append(" (");
    sql.append(column);
    sql.append(") WHERE ");
    sql.append(column);
    sql.append(" IS NOT NULL");
    sql
}

/// The query of the access method of an index.
pub fn index_type_sql(index_name: &str) -> (r: String)
    ensures
        r@ == "SELECT am.amname AS index_type FROM pg_class c JOIN pg_am am ON am.oid = c.relam WHERE c.relname = '"@
            + index_name@ + "'"@,
{
    let mut sql = String::from_str(
        "SELECT am.amname AS index_type FROM pg_class c JOIN pg_am am ON am.oid = c.relam WHERE c.relname = '",
    );
    sql.append(index_name);
    sql.append("'");
    sql
}

/// Whether an index needs migrating: it exists and is a hash index.
pub fn is_hash_index(index_type: Option<&str>) -> (r: bool)
    ensures
        r == (index_type matches Some(t) && t@ == "hash"@),
{
    match index_type {
        Some(t) => eq(t, "hash"),
        None => false,
    }
}

/// The three statements that replace an index by a B-tree one: create it under a temporary
/// name, drop the old one, and give the new one the old name.
pub fn btree_replacement_sql(index_name: &str, table: &str, column: &str) -> (r: (String, String, String))
    ensures
        r.0@ == "CREATE INDEX IF NOT EXISTS "@ + index_name@ + "_tmp ON "@ + table@ + " ("@ + column@ + ")"@,
        r.1@ == "DROP INDEX CONCURRENTLY "@ + index_name@,
        r.2@ == "ALTER INDEX "@ + index_name@ + "_tmp RENAME TO  "@ + index_name@,
{
    let mut create = String::from_str("CREATE INDEX IF NOT EXISTS ");
    create.append(index_name);
    create.append("_tmp ON ");
    create.append(table);
    create.append(" (");
    create.append(column);
    create.append(")");
    let mut drop = String::from_str("DROP INDEX CONCURRENTLY ");
    drop.append(index_name);
    let mut rename = String::from_str("ALTER INDEX ");
    rename.append(index_name);
    rename.append("_tmp RENAME TO  ");
    rename.append(index_name);
    (create, drop, rename)
}

/// An index to migrate: its name, its table and its column.
pub open spec fn index_view(m: (String, &'static str, String)) -> (Seq<char>, Seq<char>, Seq<char>) {
    (m.0@, m.1@, m.2@)
}

/// The two indexes of a domain identifier column, on the event table and on the event
/// sequence table.
pub open spec fn column_indexes(column: Seq<char>) -> Seq<(Seq<char>, Seq<char>, Seq<char>)> {
    seq![
        ("idx_event_"@ + column, "event"@, column),
        ("idx_event_sequence_"@ + column, "event_sequence"@, column),
    ]
}

/// The indexes that the migration from hash to B-tree indexes visits, in order: those of the
/// event type, then those of each domain identifier of the schema.
pub open spec fn hash_index_migrations(ids: Seq<&DomainIdentifierInfo>) -> Seq<(Seq<char>, Seq<char>, Seq<char>)>
    decreases ids.len(),
{
    if ids.len() == 0 {
        seq![
            ("idx_event_sequence_type"@, "event_sequence"@, "event_type"@),
            ("idx_events_type"@, "event"@, "event_type"@),
        ]
    } else {
        hash_index_migrations(ids.drop_last()) + column_indexes(ids.last().ident@)
    }
}

/// The indexes to migrate from hash to B-tree for the schema (see `hash_index_migrations`).
pub fn index_migrations(schema: &EventSchema) -> (r: Vec<(String, &'static str, String)>)
    ensures
        r@.map_values(|m: (String, &'static str, String)| index_view(m)) == hash_index_migrations(
            schema.domain_identifiers@,
        ),
{
    let ghost mv = |m: (String, &'static str, String)| index_view(m);
    let mut out: Vec<(String, &'static str, String)> = Vec::new();
    out.push((String::from_str("idx_event_sequence_type"), "event_sequence", String::from_str("event_type")));
    out.push((String::from_str("idx_events_type"), "event", String::from_str("event_type")));
    let ids = schema.domain_identifiers;
    proof {
        assert(out@.map_values(mv) =~= hash_index_migrations(ids@.take(0)));
    }
    let mut i: usize = 0;
    while i < ids.len()
        invariant
            i <= ids@.len(),
            ids@ == schema.domain_identifiers@,
            mv == (|m: (String, &'static str, String)| index_view(m)),
            out@.map_values(mv) == hash_index_migrations(ids@.take(i as int)),
        decreases ids@.len() - i,
    {
        let column = ids[i].ident.into_inner();
        let mut on_event = String::from_str("idx_event_");
        on_event.append(column);
        let mut on_sequence = String::from_str("idx_event_sequence_");
        on_sequence.append(column);
        let ghost before = out@;
        out.push((on_event, "event", String::from_str(column)));
        out.push((on_sequence, "event_sequence", String::from_str(column)));
        proof {
            assert(ids@.take(i + 1).drop_last() =~= ids@.take(i as int));
            assert(ids@.take(i + 1).last() == ids@[i as int]);
            assert(out@.map_values(mv) =~= before.map_values(mv) + column_indexes(column@));
        }
        i = i + 1;
    }
    proof {
        assert(ids@.take(i as int) =~= ids@);
    }
    out
}

} // verus!
