use disintegrate::domain_identifier::{DomainIdentifier, DomainIdentifierSet};
use disintegrate::event::{DomainIdentifierInfo, Event, EventInfo, EventSchema};
use disintegrate::identifier::{Identifier, IdentifierType, IntoIdentifierValue};
use disintegrate::postgres::append::InsertEventsBuilder;
use disintegrate::serde::Serializer;

#[allow(dead_code)]
#[derive(Debug, Clone, PartialEq)]
enum ShoppingCartEvent {
    Added { product_id: String, cart_id: String, quantity: i64 },
    Removed { product_id: String, cart_id: String, quantity: i64 },
}

fn ident(name: &'static str) -> Identifier {
    Identifier::new(name).unwrap()
}

fn leak<T>(v: Vec<T>) -> &'static [T] {
    Box::leak(v.into_boxed_slice())
}

fn stat<T>(v: T) -> &'static T {
    Box::leak(Box::new(v))
}

impl Event for ShoppingCartEvent {
    fn schema() -> EventSchema {
        EventSchema {
            events: &["ShoppingCartAdded", "ShoppingCartRemoved"],
            events_info: leak(vec![
                stat(EventInfo {
                    name: "ShoppingCartAdded",
                    domain_identifiers: leak(vec![stat(ident("product_id")), stat(ident("cart_id"))]),
                }),
                stat(EventInfo {
                    name: "ShoppingCartRemoved",
                    domain_identifiers: leak(vec![stat(ident("product_id")), stat(ident("cart_id"))]),
                }),
            ]),
            domain_identifiers: leak(vec![
                stat(DomainIdentifierInfo { ident: ident("cart_id"), type_info: IdentifierType::String }),
                stat(DomainIdentifierInfo { ident: ident("product_id"), type_info: IdentifierType::String }),
            ]),
        }
    }

    fn name(&self) -> &'static str {
        match self {
            ShoppingCartEvent::Added { .. } => "ShoppingCartAdded",
            ShoppingCartEvent::Removed { .. } => "ShoppingCartRemoved",
        }
    }

    fn domain_identifiers(&self) -> DomainIdentifierSet {
        let (product_id, cart_id) = match self {
            ShoppingCartEvent::Added { product_id, cart_id, .. } => (product_id, cart_id),
            ShoppingCartEvent::Removed { product_id, cart_id, .. } => (product_id, cart_id),
        };
        DomainIdentifierSet::new(vec![
            DomainIdentifier { key: ident("product_id"), value: product_id.into_identifier_value() },
            DomainIdentifier { key: ident("cart_id"), value: cart_id.into_identifier_value() },
        ])
    }
}

struct DebugSerde;

impl Serializer<ShoppingCartEvent> for DebugSerde {
    fn serialize(&self, value: ShoppingCartEvent) -> Vec<u8> {
        format!("{value:?}").into_bytes()
    }
}

#[derive(Clone, Debug)]
enum SparseEvent {
    A { x: i64 },
    B { y: String },
}

impl Event for SparseEvent {
    fn schema() -> EventSchema {
        EventSchema { events: &["A", "B"], events_info: &[], domain_identifiers: &[] }
    }

    fn name(&self) -> &'static str {
        match self {
            SparseEvent::A { .. } => "A",
            SparseEvent::B { .. } => "B",
        }
    }

    fn domain_identifiers(&self) -> DomainIdentifierSet {
        match self {
            SparseEvent::A { x } => DomainIdentifierSet::new(vec![DomainIdentifier {
                key: ident("x_id"),
                value: x.into_identifier_value(),
            }]),
            SparseEvent::B { y } => DomainIdentifierSet::new(vec![DomainIdentifier {
                key: ident("a_id"),
                value: y.into_identifier_value(),
            }]),
        }
    }
}

struct EmptySerde;

impl Serializer<SparseEvent> for EmptySerde {
    fn serialize(&self, _value: SparseEvent) -> Vec<u8> {
        vec![]
    }
}

#[test]
fn it_builds_event_insert() {
    let events = &[
        ShoppingCartEvent::Added {
            product_id: "product_1".into(),
            cart_id: "cart_1".into(),
            quantity: 10,
        },
        ShoppingCartEvent::Removed {
            product_id: "product_1".into(),
            cart_id: "cart_1".into(),
            quantity: 10,
        },
    ];
    let serde = DebugSerde;
    let insert_query = InsertEventsBuilder::new(events, &serde);
    assert_eq!(
        insert_query.build().unwrap().0.sql(),
        "INSERT INTO event (event_type,payload,cart_id,product_id) VALUES ($1, $2, $3, $4), ($5, $6, $7, $8) RETURNING (event_id)"
    );
}

#[test]
fn it_writes_null_for_identifiers_an_event_lacks() {
    let events = &[SparseEvent::A { x: 1 }, SparseEvent::B { y: "b".into() }];
    let serde = EmptySerde;
    let insert_query = InsertEventsBuilder::new(events, &serde);
    assert_eq!(
        insert_query.build().unwrap().0.sql(),
        "INSERT INTO event (event_type,payload,a_id,x_id) VALUES ($1, $2, NULL, $3), ($4, $5, $6, NULL) RETURNING (event_id)"
    );
}

#[test]
fn it_builds_with_given_payloads() {
    let events = &[SparseEvent::B { y: "b".into() }];
    let serde = EmptySerde;
    let insert_query = InsertEventsBuilder::new(events, &serde);
    let payloads = vec![vec![1u8, 2, 3]];
    assert_eq!(
        insert_query.build_with(&payloads).0.sql(),
        "INSERT INTO event (event_type,payload,a_id) VALUES ($1, $2, $3) RETURNING (event_id)"
    );
}

#[test]
fn it_serializes_every_event() {
    let events = &[SparseEvent::A { x: 1 }, SparseEvent::A { x: 2 }, SparseEvent::B { y: "z".into() }];
    let serde = EmptySerde;
    let insert_query = InsertEventsBuilder::new(events, &serde);
    assert_eq!(insert_query.payloads().len(), 3);
}
