use disintegrate::domain_identifier::{DomainIdentifier, DomainIdentifierSet};
use disintegrate::identifier::{Identifier, IntoIdentifierValue};
use disintegrate::postgres::id_indexer::sql_builder;

fn id(k: &'static str, v: disintegrate::identifier::IdentifierValue) -> DomainIdentifier {
    DomainIdentifier { key: Identifier::new(k).unwrap(), value: v }
}

#[test]
fn it_builds_event_update() {
    let ids = DomainIdentifierSet::new(vec![
        id("cart_id", "cart1".into_identifier_value()),
        id("product_id", 1i64.into_identifier_value()),
        id("customer_id", uuid::Uuid::new_v4().into_identifier_value()),
    ]);

    let builder = sql_builder(1, ids);

    assert_eq!(
        builder.0.sql(),
        "UPDATE event SET cart_id = $1,customer_id = $2,product_id = $3 WHERE event_id = $4"
    );
}

#[test]
fn it_builds_an_update_of_no_column() {
    let builder = sql_builder(9, DomainIdentifierSet::empty());
    assert_eq!(builder.0.sql(), "UPDATE event SET  WHERE event_id = $1");
}
