use disintegrate::domain_identifier::{DomainIdentifier, DomainIdentifierSet};
use disintegrate::event::{DomainIdentifierInfo, Event, EventInfo, EventSchema};
use disintegrate::identifier::{Identifier, IdentifierType, IntoIdentifierValue};
use disintegrate::postgres::insert_builder::InsertBuilder;

#[allow(dead_code)]
#[derive(Debug, Clone, PartialEq)]
enum ShoppingCartEvent {
    Added { product_id: String, cart_id: String, quantity: i64 },
    Removed { product_id: String, cart_id: String, quantity: i64 },
}

fn ident(name: &'static str) -> Identifier {
    Identifier::new(name).unwrap()
}

fn leak<T>(v: Vec<T>) -> &'static [T] {
    Box::leak(v.into_boxed_slice())
}

fn stat<T>(v: T) -> &'static T {
    Box::leak(Box::new(v))
}

impl Event for ShoppingCartEvent {
    fn schema() -> EventSchema {
        EventSchema {
            events: &["ShoppingCartAdded", "ShoppingCartRemoved"],
            events_info: leak(vec![
                stat(EventInfo {
                    name: "ShoppingCartAdded",
                    domain_identifiers: leak(vec![stat(ident("product_id")), stat(ident("cart_id"))]),
                }),
                stat(EventInfo {
                    name: "ShoppingCartRemoved",
                    domain_identifiers: leak(vec![stat(ident("product_id")), stat(ident("cart_id"))]),
                }),
            ]),
            domain_identifiers: leak(vec![
                stat(DomainIdentifierInfo { ident: ident("cart_id"), type_info: IdentifierType::String }),
                stat(DomainIdentifierInfo { ident: ident("product_id"), type_info: IdentifierType::String }),
            ]),
        }
    }

    fn name(&self) -> &'static str {
        match self {
            ShoppingCartEvent::Added { .. } => "ShoppingCartAdded",
            ShoppingCartEvent::Removed { .. } => "ShoppingCartRemoved",
        }
    }

    fn domain_identifiers(&self) -> DomainIdentifierSet {
        let (product_id, cart_id) = match self {
            ShoppingCartEvent::Added { product_id, cart_id, .. } => (product_id, cart_id),
            ShoppingCartEvent::Removed { product_id, cart_id, .. } => (product_id, cart_id),
        };
        DomainIdentifierSet::new(vec![
            DomainIdentifier { key: ident("product_id"), value: product_id.into_identifier_value() },
            DomainIdentifier { key: ident("cart_id"), value: cart_id.into_identifier_value() },
        ])
    }
}

#[test]
fn it_builds_insert() {
    let event = ShoppingCartEvent::Added {
        product_id: "product_1".into(),
        cart_id: "cart_1".into(),
        quantity: 10,
    };
    let insert_query = InsertBuilder::new(&event, "event_sequence");

    assert_eq!(
        insert_query.build().0.sql(),
        "INSERT INTO event_sequence (event_type,cart_id,product_id) VALUES ($1,$2,$3)"
    );
}

#[test]
fn it_builds_insert_with_id_and_payload() {
    let event = ShoppingCartEvent::Added {
        product_id: "product_1".into(),
        cart_id: "cart_1".into(),
        quantity: 10,
    };
    let payload: Vec<u8> = vec![];
    let insert_query = InsertBuilder::new(&event, "event")
        .with_id(1)
        .with_payload(&payload);

    assert_eq!(
        insert_query.build().0.sql(),
        "INSERT INTO event (event_type,cart_id,product_id,event_id,payload) VALUES ($1,$2,$3,$4,$5)"
    );
}

#[test]
fn it_writes_the_consumed_flag_and_the_returned_columns() {
    let event = ShoppingCartEvent::Removed {
        product_id: "p".into(),
        cart_id: "c".into(),
        quantity: 1,
    };
    let insert_query = InsertBuilder::new(&event, "event_sequence")
        .with_id(7)
        .with_consumed(true)
        .returning("event_id");

    assert_eq!(
        insert_query.build().0.sql(),
        "INSERT INTO event_sequence (event_type,cart_id,product_id,event_id,consumed) VALUES ($1,$2,$3,$4,1) RETURNING (event_id)"
    );

    let insert_query = InsertBuilder::new(&event, "t").with_consumed(false);
    assert_eq!(
        insert_query.build().0.sql(),
        "INSERT INTO t (event_type,cart_id,product_id,consumed) VALUES ($1,$2,$3,0)"
    );
}
