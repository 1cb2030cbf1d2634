use disintegrate::event::{DomainIdentifierInfo, EventSchema};
use disintegrate::identifier::{Identifier, IdentifierType};
use disintegrate::postgres::migrator::{
    add_column_sql, btree_replacement_sql, column_index_sql, index_migrations, index_type_sql, is_hash_index,
    is_reserved_name, sql_type,
};

fn info(name: &'static str, type_info: IdentifierType) -> DomainIdentifierInfo {
    DomainIdentifierInfo { ident: Identifier::new(name).unwrap(), type_info }
}

#[test]
fn it_refuses_reserved_column_names() {
    for name in ["event_id", "payload", "event_type", "inserted_at"] {
        assert!(is_reserved_name(name));
    }
    assert!(!is_reserved_name("cart_id"));
    assert!(!is_reserved_name("event"));
}

#[test]
fn it_adds_a_typed_column_and_its_index() {
    assert_eq!(sql_type(IdentifierType::String), "TEXT");
    assert_eq!(sql_type(IdentifierType::i64), "BIGINT");
    assert_eq!(sql_type(IdentifierType::Uuid), "UUID");
    assert_eq!(
        add_column_sql("event", &info("cart_id", IdentifierType::Uuid)),
        "ALTER TABLE event ADD COLUMN IF NOT EXISTS cart_id UUID"
    );
    assert_eq!(
        column_index_sql("event", "cart_id"),
        "CREATE INDEX IF NOT EXISTS idx_event_cart_id ON event (cart_id) WHERE cart_id IS NOT NULL"
    );
}

#[test]
fn it_replaces_hash_indexes() {
    assert_eq!(
        index_type_sql("idx_events_type"),
        "SELECT am.amname AS index_type FROM pg_class c JOIN pg_am am ON am.oid = c.relam WHERE c.relname = 'idx_events_type'"
    );
    assert!(is_hash_index(Some("hash")));
    assert!(!is_hash_index(Some("btree")));
    assert!(!is_hash_index(None));
    let (create, drop, rename) = btree_replacement_sql("idx_event_cart_id", "event", "cart_id");
    assert_eq!(create, "CREATE INDEX IF NOT EXISTS idx_event_cart_id_tmp ON event (cart_id)");
    assert_eq!(drop, "DROP INDEX CONCURRENTLY idx_event_cart_id");
    assert_eq!(rename, "ALTER INDEX idx_event_cart_id_tmp RENAME TO  idx_event_cart_id");
}

#[test]
fn it_lists_the_indexes_to_migrate() {
    let cart: &'static DomainIdentifierInfo = Box::leak(Box::new(info("cart_id", IdentifierType::String)));
    let domain_identifiers: &'static [&'static DomainIdentifierInfo] = Box::leak(vec![cart].into_boxed_slice());
    let schema = EventSchema { events: &["A"], events_info: &[], domain_identifiers };
    let migrations: Vec<(String, &str, String)> = index_migrations(&schema);
    assert_eq!(
        migrations,
        vec![
            ("idx_event_sequence_type".to_string(), "event_sequence", "event_type".to_string()),
            ("idx_events_type".to_string(), "event", "event_type".to_string()),
            ("idx_event_cart_id".to_string(), "event", "cart_id".to_string()),
            ("idx_event_sequence_cart_id".to_string(), "event_sequence", "cart_id".to_string()),
        ]
    );
}
