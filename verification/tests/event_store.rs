use disintegrate::domain_identifier::{DomainIdentifier, DomainIdentifierSet};
use disintegrate::event::{DomainIdentifierInfo, Event, EventInfo, EventSchema};
use disintegrate::identifier::{Identifier, IdentifierType, IntoIdentifierValue};
use disintegrate::postgres::event_store::{append_check_sql, is_serialization_failure, persisted_events, stream_sql};
use disintegrate::postgres::snapshotter::{query_key, snapshot_applies, snapshot_due, snapshot_id};
use disintegrate::postgres::listener::{after_failure, release_checkpoint, should_wake, AbortRetry, HandleProgress, PgEventListenerError, PgEventListenerErrorKind, Retry, RetryDecision};
use md5::{Digest, Md5};
use std::time::Duration;
use disintegrate::stream_query::{query, StreamFilter, StreamQuery};

#[allow(dead_code)]
#[derive(Clone)]
enum TestEvent {
    Bar { bar_id: String },
    Foo { foo_id: String },
}

fn ident(name: &'static str) -> Identifier {
    Identifier::new(name).unwrap()
}

fn leak<T>(v: Vec<T>) -> &'static [T] {
    Box::leak(v.into_boxed_slice())
}

fn stat<T>(v: T) -> &'static T {
    Box::leak(Box::new(v))
}

impl Event for TestEvent {
    fn schema() -> EventSchema {
        EventSchema {
            events: &["Bar", "Foo"],
            events_info: leak(vec![
                stat(EventInfo { name: "Bar", domain_identifiers: leak(vec![stat(ident("bar_id"))]) }),
                stat(EventInfo { name: "Foo", domain_identifiers: leak(vec![stat(ident("foo_id"))]) }),
            ]),
            domain_identifiers: leak(vec![
                stat(DomainIdentifierInfo { ident: ident("foo_id"), type_info: IdentifierType::String }),
                stat(DomainIdentifierInfo { ident: ident("bar_id"), type_info: IdentifierType::String }),
            ]),
        }
    }

    fn name(&self) -> &'static str {
        ""
    }

    fn domain_identifiers(&self) -> DomainIdentifierSet {
        DomainIdentifierSet::empty()
    }
}

fn query_with(ids: Vec<(&'static str, &'static str)>) -> StreamQuery<TestEvent> {
    let entries = ids
        .into_iter()
        .map(|(k, v)| DomainIdentifier { key: ident(k), value: v.into_identifier_value() })
        .collect();
    query::<TestEvent, TestEvent>(Some(StreamFilter::<TestEvent>::new(DomainIdentifierSet::new(entries))))
}

#[test]
fn it_builds_the_stream_sql() {
    let query = query_with(vec![("foo_id", "value")]);
    assert_eq!(
        stream_sql(&query),
        "SELECT event.event_id, event.payload, epoch.__epoch_id\n            FROM (SELECT COALESCE(MAX(event_id),0) AS __epoch_id FROM event) AS epoch\n            LEFT JOIN event ON event.event_id <= epoch.__epoch_id AND (((event_type = 'Bar') OR (event_type = 'Foo' AND foo_id = 'value')))\n            ORDER BY event_id ASC"
    );
}

#[test]
fn it_checks_appends_from_the_version() {
    let query = query_with(vec![("foo_id", "value")]).exclude_events(&["Bar"]);
    assert_eq!(
        append_check_sql(&query, 7),
        "SELECT EXISTS (SELECT 1 FROM event WHERE (event_id > 7 AND ((event_type = 'Foo' AND foo_id = 'value'))))"
    );
}

#[test]
fn it_pairs_ids_with_appended_events() {
    let bar = |id: &str| TestEvent::Bar { bar_id: id.to_string() };
    let persisted = persisted_events(&vec![10, 11, 12], vec![bar("a"), bar("b")]);
    assert_eq!(persisted.len(), 2);
    assert_eq!(persisted[0].id, 10);
    assert!(matches!(&persisted[0].event, TestEvent::Bar { bar_id } if bar_id == "a"));
    assert_eq!(persisted[1].id, 11);
    assert!(matches!(&persisted[1].event, TestEvent::Bar { bar_id } if bar_id == "b"));
    let persisted = persisted_events(&vec![3], vec![bar("x"), bar("y")]);
    assert_eq!(persisted.len(), 1);
    assert_eq!(persisted[0].id, 3);
    assert!(matches!(&persisted[0].event, TestEvent::Bar { bar_id } if bar_id == "x"));
}

#[test]
fn it_recognizes_serialization_failures() {
    assert!(is_serialization_failure(Some("40001")));
    assert!(!is_serialization_failure(Some("23505")));
    assert!(!is_serialization_failure(None));
}

#[test]
fn it_keys_a_query() {
    let query = query_with(vec![("foo_id", "value"), ("bar_id", "x")])
        .union::<TestEvent, TestEvent>(&query::<TestEvent, TestEvent>(None).exclude_events(&["Bar"]))
        .change_origin(-4);
    assert_eq!(
        query_key(&query),
        "(-4|Bar,Foo|bar_id=x,foo_id=value)(-4|Bar,Foo-Bar|)"
    );
}

#[test]
fn it_derives_the_snapshot_id_from_name_and_query() {
    let mut hasher = Md5::new();
    hasher.update("Cart");
    let namespace = uuid::Uuid::from_bytes(hasher.finalize().into());
    let expected = uuid::Uuid::new_v3(&namespace, "(0|Bar,Foo|)".as_bytes());
    assert_eq!(snapshot_id("Cart", "(0|Bar,Foo|)"), expected.as_u128());
    assert_ne!(snapshot_id("Cart", "(0|Bar,Foo|)"), snapshot_id("Cart", "(1|Bar,Foo|)"));
    assert_ne!(snapshot_id("Cart", "(0|Bar,Foo|)"), snapshot_id("Order", "(0|Bar,Foo|)"));
}

#[test]
fn it_stores_snapshots_after_enough_events() {
    assert!(!snapshot_due(10, 10));
    assert!(snapshot_due(11, 10));
    assert!(snapshot_applies("Cart", "(0|A|)", "Cart", "(0|A|)"));
    assert!(!snapshot_applies("Cart", "(0|A|)", "Cart", "(1|A|)"));
    assert!(!snapshot_applies("Cart", "(0|A|)", "Order", "(0|A|)"));
}

fn err(kind: PgEventListenerErrorKind<&'static str, &'static str>) -> PgEventListenerError<&'static str, &'static str> {
    PgEventListenerError { kind, listener_id: "l".to_string() }
}

#[test]
fn it_records_the_event_reached_by_a_run() {
    assert_eq!(release_checkpoint::<&str, &str>(Ok(5)).unwrap(), 5);
    let fetched = err(PgEventListenerErrorKind::FetchNextEvent { source: "db", last_processed_event_id: 3 });
    assert_eq!(release_checkpoint(Err(fetched)).unwrap(), 3);
    let handled = err(PgEventListenerErrorKind::Handler { source: "handler", last_processed_event_id: 4 });
    assert_eq!(release_checkpoint(Err(handled)).unwrap(), 4);
    let locked = err(PgEventListenerErrorKind::AquireLock { source: "db" });
    assert!(matches!(
        release_checkpoint(Err(locked)),
        Err(PgEventListenerError { kind: PgEventListenerErrorKind::AquireLock { source: "db" }, .. })
    ));
}

#[test]
fn it_stops_a_run_at_the_end_at_shutdown_or_at_the_fetch_size() {
    let mut p = HandleProgress::new(2, 3);
    assert!(p.wants_next());
    p.handled(5, false, false);
    assert!(p.wants_next());
    assert_eq!(p.last_processed_event_id(), 5);
    p.handled(9, true, false);
    assert!(!p.wants_next());
    assert_eq!(p.last_processed_event_id(), 9);

    let mut p = HandleProgress::new(0, 2);
    p.handled(1, false, false);
    p.handled(2, false, false);
    assert!(!p.wants_next());

    let mut p = HandleProgress::new(0, 10);
    p.handled(1, false, true);
    assert!(!p.wants_next());
}

#[test]
fn it_retries_after_waiting_or_aborts() {
    assert!(after_failure(0, RetryDecision::Abort).is_none());
    let (attempts, wait) = after_failure(2, RetryDecision::Wait { duration: Duration::from_millis(20) }).unwrap();
    assert_eq!(attempts, 3);
    assert_eq!(wait, Duration::from_millis(20));
    let e = err(PgEventListenerErrorKind::InitTransaction { source: "db" });
    assert!(matches!(AbortRetry.retry(&e, 0), RetryDecision::Abort));
}

#[test]
fn it_wakes_listeners_whose_query_selects_the_event() {
    let query = query_with(vec![("foo_id", "value")]).exclude_events(&["Bar"]);
    assert!(should_wake(&query, "Foo"));
    assert!(!should_wake(&query, "Bar"));
    assert!(!should_wake(&query, "Baz"));
}
