use disintegrate::decision::state::{IntoState, IntoStatePart, MultiState, StateMutate, StatePart, StateQuery};
use disintegrate::domain_identifier::{DomainIdentifier, DomainIdentifierSet};
use disintegrate::event::{DomainIdentifierInfo, Event, EventInfo, EventSchema, PersistedEvent};
use disintegrate::identifier::{Identifier, IdentifierType, IntoIdentifierValue};
use disintegrate::state::{Hydrated, State};
use disintegrate::stream_query::{query, StreamFilter, StreamQuery};

#[derive(Clone, Debug, PartialEq)]
enum ShoppingCartEvent {
    ItemAdded { item_id: String, cart_id: String },
    ItemRemoved { item_id: String, cart_id: String },
}

fn ident(name: &'static str) -> Identifier {
    Identifier::new(name).unwrap()
}

fn leak<T>(v: Vec<T>) -> &'static [T] {
    Box::leak(v.into_boxed_slice())
}

fn stat<T>(v: T) -> &'static T {
    Box::leak(Box::new(v))
}

impl Event for ShoppingCartEvent {
    fn schema() -> EventSchema {
        EventSchema {
            events: &["ItemAdded", "ItemRemoved"],
            events_info: leak(vec![
                stat(EventInfo {
                    name: "ItemAdded",
                    domain_identifiers: leak(vec![stat(ident("item_id")), stat(ident("cart_id"))]),
                }),
                stat(EventInfo {
                    name: "ItemRemoved",
                    domain_identifiers: leak(vec![stat(ident("item_id")), stat(ident("cart_id"))]),
                }),
            ]),
            domain_identifiers: leak(vec![
                stat(DomainIdentifierInfo { ident: ident("cart_id"), type_info: IdentifierType::String }),
                stat(DomainIdentifierInfo { ident: ident("item_id"), type_info: IdentifierType::String }),
            ]),
        }
    }

    fn name(&self) -> &'static str {
        match self {
            ShoppingCartEvent::ItemAdded { .. } => "ItemAdded",
            ShoppingCartEvent::ItemRemoved { .. } => "ItemRemoved",
        }
    }

    fn domain_identifiers(&self) -> DomainIdentifierSet {
        let (item_id, cart_id) = match self {
            ShoppingCartEvent::ItemAdded { item_id, cart_id } => (item_id, cart_id),
            ShoppingCartEvent::ItemRemoved { item_id, cart_id } => (item_id, cart_id),
        };
        DomainIdentifierSet::new(vec![
            DomainIdentifier { key: ident("item_id"), value: item_id.into_identifier_value() },
            DomainIdentifier { key: ident("cart_id"), value: cart_id.into_identifier_value() },
        ])
    }
}

fn item_added_event(item_id: &str, cart_id: &str) -> ShoppingCartEvent {
    ShoppingCartEvent::ItemAdded { item_id: item_id.to_string(), cart_id: cart_id.to_string() }
}

#[derive(Default, Debug, Clone, Eq, PartialEq)]
struct Cart {
    cart_id: String,
    items: Vec<String>,
}

impl Cart {
    fn new(cart_id: &str) -> Self {
        Self { cart_id: cart_id.into(), ..Default::default() }
    }
}

fn cart<const N: usize>(cart_id: &str, items: [String; N]) -> Cart {
    Cart { cart_id: cart_id.to_string(), items: Vec::from(items) }
}

impl StateQuery for Cart {
    type Event = ShoppingCartEvent;

    fn name() -> &'static str {
        "Cart"
    }

    fn query(&self) -> StreamQuery<ShoppingCartEvent> {
        query::<ShoppingCartEvent, ShoppingCartEvent>(Some(StreamFilter::<ShoppingCartEvent>::new(
            DomainIdentifierSet::new(vec![DomainIdentifier {
                key: ident("cart_id"),
                value: self.cart_id.clone().into_identifier_value(),
            }]),
        )))
    }
}

impl StateMutate for Cart {
    fn mutate(&mut self, event: Self::Event) {
        match event {
            ShoppingCartEvent::ItemAdded { item_id, .. } => {
                self.items.push(item_id);
            }
            ShoppingCartEvent::ItemRemoved { item_id, .. } => {
                let index = self.items.iter().position(|i| i == &item_id).unwrap();
                self.items.remove(index);
            }
        }
    }
}

#[test]
fn it_mutates_all() {
    let mut state = (Cart::new("c1"), Cart::new("c2")).into_state_part();
    state.mutate_all(PersistedEvent::new(1, item_added_event("p1", "c1")));
    state.mutate_all(PersistedEvent::new(2, item_added_event("p2", "c2")));
    let (cart1, cart2) = state;
    assert_eq!(cart1.version(), 1);
    assert_eq!(cart1.applied_events(), 1);
    assert_eq!(cart1.into_state(), cart("c1", ["p1".to_string()]));
    assert_eq!(cart2.version(), 2);
    assert_eq!(cart2.applied_events(), 1);
    assert_eq!(cart2.into_state(), cart("c2", ["p2".to_string()]));
}

#[test]
fn the_version_of_a_group_is_its_greatest_version() {
    let state = (StatePart::new(4, Cart::new("c1")), StatePart::new(9, Cart::new("c2")));
    assert_eq!(MultiState::<ShoppingCartEvent>::version(&state), 9);
    let state = (StatePart::new(12, Cart::new("c1")), StatePart::new(9, Cart::new("c2")));
    assert_eq!(MultiState::<ShoppingCartEvent>::version(&state), 12);
}

#[test]
fn a_part_reads_its_query_from_its_version() {
    let part = StatePart::new(5, Cart::new("c1"));
    let q = part.query_part();
    assert_eq!(q.filters()[0].origin(), 5);
    assert!(!part.matches_event(&PersistedEvent::new(5, item_added_event("p1", "c1"))));
    assert!(part.matches_event(&PersistedEvent::new(6, item_added_event("p1", "c1"))));
}

#[test]
fn parts_convert_back_into_states() {
    let parts = (Cart::new("a"), Cart::new("b")).into_state_part();
    let (a, b): (Cart, Cart) = parts.into_state();
    assert_eq!(a, Cart::new("a"));
    assert_eq!(b, Cart::new("b"));
}

#[derive(Clone)]
struct Items(Vec<String>);

impl State for Items {
    type Event = ShoppingCartEvent;

    fn query(&self) -> StreamQuery<ShoppingCartEvent> {
        query::<ShoppingCartEvent, ShoppingCartEvent>(None)
    }

    fn mutate(&mut self, event: ShoppingCartEvent) {
        if let ShoppingCartEvent::ItemAdded { item_id, .. } = event {
            self.0.push(item_id);
        }
    }
}

#[test]
fn hydrating_applies_events_and_moves_the_version() {
    let mut hydrated = Hydrated::new(Items(vec![]), 0);
    hydrated.apply_event(PersistedEvent::new(3, item_added_event("p1", "c1")));
    hydrated.apply_event(PersistedEvent::new(8, item_added_event("p2", "c1")));
    assert_eq!(hydrated.version(), 8);
    assert_eq!(hydrated.state().0, vec!["p1".to_string(), "p2".to_string()]);
}

#[test]
fn it_queries_all() {
    let cart1 = Cart::new("c1");
    let cart2 = Cart::new("c2");
    let state = (cart1.clone(), cart2.clone()).into_state_part();
    let query: StreamQuery<ShoppingCartEvent> = state.query_all();
    assert_eq!(
        query,
        cart1
            .query()
            .change_origin(0)
            .union::<ShoppingCartEvent, ShoppingCartEvent>(&cart2.query().change_origin(0))
    );
}

#[test]
fn a_single_state_is_its_own_part() {
    let mut part = Cart::new("c1").into_state_part();
    assert!(MultiState::<ShoppingCartEvent>::can_mutate(&part));
    part.mutate_all(PersistedEvent::new(4, item_added_event("p1", "c1")));
    part.mutate_all(PersistedEvent::new(5, item_added_event("p9", "c9")));
    assert_eq!(part.version(), 4);
    assert_eq!(part.applied_events(), 1);
    assert_eq!(IntoState::<Cart>::into_state(part), cart("c1", ["p1".to_string()]));
}

/// A sub-stream of the shopping cart events: the additions only.
#[derive(Clone, Debug, PartialEq)]
enum ItemAddedEvent {
    ItemAdded { item_id: String, cart_id: String },
}

impl Event for ItemAddedEvent {
    fn schema() -> EventSchema {
        EventSchema {
            events: &["ItemAdded"],
            events_info: leak(vec![stat(EventInfo {
                name: "ItemAdded",
                domain_identifiers: leak(vec![stat(ident("item_id")), stat(ident("cart_id"))]),
            })]),
            domain_identifiers: leak(vec![
                stat(DomainIdentifierInfo { ident: ident("cart_id"), type_info: IdentifierType::String }),
                stat(DomainIdentifierInfo { ident: ident("item_id"), type_info: IdentifierType::String }),
            ]),
        }
    }

    fn name(&self) -> &'static str {
        "ItemAdded"
    }

    fn domain_identifiers(&self) -> DomainIdentifierSet {
        let ItemAddedEvent::ItemAdded { item_id, cart_id } = self;
        DomainIdentifierSet::new(vec![
            DomainIdentifier { key: ident("item_id"), value: item_id.into_identifier_value() },
            DomainIdentifier { key: ident("cart_id"), value: cart_id.into_identifier_value() },
        ])
    }
}

impl From<ItemAddedEvent> for ShoppingCartEvent {
    fn from(event: ItemAddedEvent) -> Self {
        let ItemAddedEvent::ItemAdded { item_id, cart_id } = event;
        ShoppingCartEvent::ItemAdded { item_id, cart_id }
    }
}

impl TryFrom<ShoppingCartEvent> for ItemAddedEvent {
    type Error = ();

    fn try_from(event: ShoppingCartEvent) -> Result<Self, ()> {
        match event {
            ShoppingCartEvent::ItemAdded { item_id, cart_id } => Ok(ItemAddedEvent::ItemAdded { item_id, cart_id }),
            ShoppingCartEvent::ItemRemoved { .. } => Err(()),
        }
    }
}

/// How many items were ever added to a cart.
#[derive(Debug, Clone, PartialEq)]
struct AddedItems {
    cart_id: String,
    count: u32,
}

impl StateQuery for AddedItems {
    type Event = ItemAddedEvent;

    fn name() -> &'static str {
        "AddedItems"
    }

    fn query(&self) -> StreamQuery<ItemAddedEvent> {
        query::<ItemAddedEvent, ItemAddedEvent>(Some(StreamFilter::<ItemAddedEvent>::new(DomainIdentifierSet::new(
            vec![DomainIdentifier { key: ident("cart_id"), value: self.cart_id.clone().into_identifier_value() }],
        ))))
    }
}

impl StateMutate for AddedItems {
    fn mutate(&mut self, _event: ItemAddedEvent) {
        self.count += 1;
    }
}

fn removed_event(item_id: &str, cart_id: &str) -> ShoppingCartEvent {
    ShoppingCartEvent::ItemRemoved { item_id: item_id.to_string(), cart_id: cart_id.to_string() }
}

#[test]
fn a_group_of_three_parts_mutates_each_part_by_its_own_stream() {
    let added = AddedItems { cart_id: "c1".to_string(), count: 0 };
    let mut state = (Cart::new("c1"), Cart::new("c2"), added).into_state_part();
    state.mutate_all(PersistedEvent::new(1, item_added_event("p1", "c1")));
    state.mutate_all(PersistedEvent::new(2, removed_event("p1", "c1")));
    state.mutate_all(PersistedEvent::new(3, item_added_event("p2", "c2")));
    assert_eq!(MultiState::<ShoppingCartEvent>::version(&state), 3);
    let query: StreamQuery<ShoppingCartEvent> = state.query_all();
    assert_eq!(query.filters().len(), 3);
    let (cart1, cart2, added) = state;
    assert_eq!((cart1.version(), cart1.applied_events()), (2, 2));
    assert_eq!(cart1.into_state(), cart("c1", []));
    assert_eq!((cart2.version(), cart2.applied_events()), (3, 1));
    assert_eq!(cart2.into_state(), cart("c2", ["p2".to_string()]));
    assert_eq!((added.version(), added.applied_events()), (1, 1));
    assert_eq!(added.into_state().count, 1);
}

#[test]
fn a_part_over_a_sub_stream_converts_the_events_it_selects() {
    let mut part = StatePart::new(0, AddedItems { cart_id: "c1".to_string(), count: 0 });
    let event = PersistedEvent::new(7, item_added_event("p1", "c1"));
    assert!(part.matches_event(&event));
    assert!(!part.matches_event(&PersistedEvent::new(8, removed_event("p1", "c1"))));
    part.mutate_part(event);
    assert_eq!((part.version(), part.applied_events()), (7, 1));
    assert_eq!(part.into_state().count, 1);
}
