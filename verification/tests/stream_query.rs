use disintegrate::filter_expr::{matches_filter, FilterExpr};
use disintegrate::domain_identifier::{DomainIdentifier, DomainIdentifierSet};
use disintegrate::event::{DomainIdentifierInfo, Event, EventInfo, EventSchema, PersistedEvent};
use disintegrate::identifier::{Identifier, IdentifierType, IdentifierValue, IntoIdentifierValue};
use disintegrate::stream_query::{query, StreamFilter, StreamQuery};

#[derive(Clone, Debug, PartialEq)]
enum ShoppingCartEvent {
    ItemAdded { item_id: String, cart_id: String },
    ItemRemoved { item_id: String, cart_id: String },
}

fn ident(name: &'static str) -> Identifier {
    Identifier::new(name).unwrap()
}

fn leak<T>(v: Vec<T>) -> &'static [T] {
    Box::leak(v.into_boxed_slice())
}

impl Event for ShoppingCartEvent {
    fn schema() -> EventSchema {
        let item_id: &'static Identifier = Box::leak(Box::new(ident("item_id")));
        let cart_id: &'static Identifier = Box::leak(Box::new(ident("cart_id")));
        EventSchema {
            events: &["ItemAdded", "ItemRemoved"],
            events_info: leak(vec![
                &*Box::leak(Box::new(EventInfo { name: "ItemAdded", domain_identifiers: leak(vec![item_id, cart_id]) })),
                &*Box::leak(Box::new(EventInfo { name: "ItemRemoved", domain_identifiers: leak(vec![item_id, cart_id]) })),
            ]),
            domain_identifiers: leak(vec![
                &*Box::leak(Box::new(DomainIdentifierInfo { ident: *cart_id, type_info: IdentifierType::String })),
                &*Box::leak(Box::new(DomainIdentifierInfo { ident: *item_id, type_info: IdentifierType::String })),
            ]),
        }
    }

    fn name(&self) -> &'static str {
        match self {
            ShoppingCartEvent::ItemAdded { .. } => "ItemAdded",
            ShoppingCartEvent::ItemRemoved { .. } => "ItemRemoved",
        }
    }

    fn domain_identifiers(&self) -> DomainIdentifierSet {
        let (item_id, cart_id) = match self {
            ShoppingCartEvent::ItemAdded { item_id, cart_id } => (item_id, cart_id),
            ShoppingCartEvent::ItemRemoved { item_id, cart_id } => (item_id, cart_id),
        };
        DomainIdentifierSet::new(vec![
            DomainIdentifier { key: ident("item_id"), value: item_id.into_identifier_value() },
            DomainIdentifier { key: ident("cart_id"), value: cart_id.into_identifier_value() },
        ])
    }
}

fn cart_filter(cart_id: i64) -> StreamFilter<ShoppingCartEvent> {
    StreamFilter::<ShoppingCartEvent>::new(DomainIdentifierSet::new(vec![DomainIdentifier {
        key: ident("cart_id"),
        value: cart_id.into_identifier_value(),
    }]))
}

fn added(id: i64, item_id: &str, cart_id: &str) -> PersistedEvent<ShoppingCartEvent> {
    PersistedEvent::new(
        id,
        ShoppingCartEvent::ItemAdded { item_id: item_id.to_string(), cart_id: cart_id.to_string() },
    )
}

fn cart_query(cart_id: &str) -> StreamQuery<ShoppingCartEvent> {
    query::<ShoppingCartEvent, ShoppingCartEvent>(Some(StreamFilter::<ShoppingCartEvent>::new(
        DomainIdentifierSet::new(vec![DomainIdentifier {
            key: ident("cart_id"),
            value: cart_id.into_identifier_value(),
        }]),
    )))
}

#[test]
fn test_filter_with_no_origin_and_no_exclude_events() {
    let filter = cart_filter(42);

    assert_eq!(filter.identifiers().len(), 1);
    assert_eq!(
        *filter.identifiers().get(&ident("cart_id")).unwrap(),
        IdentifierValue::i64(42)
    );
}

#[test]
fn test_filter_with_origin() {
    let filter = cart_filter(42).change_origin(10);

    assert_eq!(filter.origin(), 10);
}

#[test]
fn test_filter_with_all_parameters() {
    let filter = cart_filter(42).change_origin(10);

    assert_eq!(filter.origin(), 10);
    assert_eq!(filter.identifiers().len(), 1);
    assert_eq!(
        *filter.identifiers().get(&ident("cart_id")).unwrap(),
        IdentifierValue::i64(42)
    );
}

#[test]
fn query_without_filter_matches_every_event_of_the_schema() {
    let q: StreamQuery<ShoppingCartEvent> = query::<ShoppingCartEvent, ShoppingCartEvent>(None);
    assert!(q.matches(&added(1, "p1", "c1")));
    assert!(!q.matches(&added(0, "p1", "c1")));
}

#[test]
fn query_matches_only_the_selected_identifiers() {
    let q = cart_query("c1");
    assert!(q.matches(&added(1, "p1", "c1")));
    assert!(!q.matches(&added(1, "p1", "c2")));
}

#[test]
fn changed_origin_skips_earlier_events() {
    let q = cart_query("c1").change_origin(5);
    assert!(!q.matches(&added(5, "p1", "c1")));
    assert!(q.matches(&added(6, "p1", "c1")));
}

#[test]
fn excluded_events_never_match() {
    let q = cart_query("c1").exclude_events(&["ItemAdded"]);
    assert!(!q.matches(&added(1, "p1", "c1")));
    let removed = PersistedEvent::new(
        2,
        ShoppingCartEvent::ItemRemoved { item_id: "p1".to_string(), cart_id: "c1".to_string() },
    );
    assert!(q.matches(&removed));
}

#[test]
fn union_matches_what_either_query_matches() {
    let q: StreamQuery<ShoppingCartEvent> =
        cart_query("c1").union::<ShoppingCartEvent, ShoppingCartEvent>(&cart_query("c2"));
    assert_eq!(q.filters().len(), 2);
    assert!(q.matches(&added(1, "p1", "c1")));
    assert!(q.matches(&added(1, "p1", "c2")));
    assert!(!q.matches(&added(1, "p1", "c3")));
}

#[test]
fn matches_filter_tests_identifier_expressions() {
    let event = PersistedEvent::new(
        3,
        ShoppingCartEvent::ItemAdded { item_id: "p1".to_string(), cart_id: "c1".to_string() },
    );
    let cart_is = |c: &str| FilterExpr::eq(ident("cart_id"), c.into_identifier_value());
    let item_is = |i: &str| FilterExpr::eq(ident("item_id"), i.into_identifier_value());
    assert!(matches_filter(&event, &cart_is("c1")));
    assert!(!matches_filter(&event, &cart_is("c2")));
    assert!(matches_filter(&event, &FilterExpr::eq(ident("user_id"), "u1".into_identifier_value())));
    assert!(matches_filter(&event, &FilterExpr::and(cart_is("c1"), item_is("p1"))));
    assert!(!matches_filter(&event, &FilterExpr::and(cart_is("c1"), item_is("p2"))));
    assert!(matches_filter(&event, &FilterExpr::or(cart_is("c2"), item_is("p1"))));
    assert!(!matches_filter(&event, &FilterExpr::or(cart_is("c2"), item_is("p2"))));
}
