use disintegrate::domain_identifier::{DomainIdentifier, DomainIdentifierSet};
use disintegrate::event::{DomainIdentifierInfo, Event, EventInfo, EventSchema};
use disintegrate::identifier::{Identifier, IdentifierType, IntoIdentifierValue};
use disintegrate::postgres::query_builder::CriteriaBuilder;
use disintegrate::stream_query::{query, StreamFilter, StreamQuery};

#[allow(dead_code)]
#[derive(Clone)]
enum TestEvent {
    Bar { bar_id: String },
    Foo { foo_id: String },
}

fn ident(name: &'static str) -> Identifier {
    Identifier::new(name).unwrap()
}

fn leak<T>(v: Vec<T>) -> &'static [T] {
    Box::leak(v.into_boxed_slice())
}

fn stat<T>(v: T) -> &'static T {
    Box::leak(Box::new(v))
}

impl Event for TestEvent {
    fn schema() -> EventSchema {
        EventSchema {
            events: &["Bar", "Foo"],
            events_info: leak(vec![
                stat(EventInfo { name: "Bar", domain_identifiers: leak(vec![stat(ident("bar_id"))]) }),
                stat(EventInfo { name: "Foo", domain_identifiers: leak(vec![stat(ident("foo_id"))]) }),
            ]),
            domain_identifiers: leak(vec![
                stat(DomainIdentifierInfo { ident: ident("foo_id"), type_info: IdentifierType::String }),
                stat(DomainIdentifierInfo { ident: ident("bar_id"), type_info: IdentifierType::String }),
            ]),
        }
    }

    fn name(&self) -> &'static str {
        ""
    }

    fn domain_identifiers(&self) -> DomainIdentifierSet {
        DomainIdentifierSet::empty()
    }
}

fn query_with(ids: Vec<(&'static str, &'static str)>) -> StreamQuery<TestEvent> {
    let entries = ids
        .into_iter()
        .map(|(k, v)| DomainIdentifier { key: ident(k), value: v.into_identifier_value() })
        .collect();
    query::<TestEvent, TestEvent>(Some(StreamFilter::<TestEvent>::new(DomainIdentifierSet::new(entries))))
}

#[test]
fn query_builder_it_builds_criteria() {
    let query = query::<TestEvent, TestEvent>(None);
    let criteria_builder = CriteriaBuilder::new(&query);

    assert_eq!(
        criteria_builder.build(),
        "((event_type = 'Bar') OR (event_type = 'Foo'))"
    );
}

#[test]
fn query_builder_it_builds_criteria_with_an_id_filter() {
    let query = query_with(vec![("foo_id", "value")]);
    let criteria_builder = CriteriaBuilder::new(&query);

    assert_eq!(
        criteria_builder.build(),
        "((event_type = 'Bar') OR (event_type = 'Foo' AND foo_id = 'value'))"
    );
}

#[test]
fn query_builder_it_builds_criteria_with_two_ids() {
    let query = query_with(vec![("foo_id", "value"), ("bar_id", "value2")]);
    let criteria_builder = CriteriaBuilder::new(&query);

    assert_eq!(
        criteria_builder.build(),
        "((event_type = 'Bar' AND bar_id = 'value2') OR (event_type = 'Foo' AND foo_id = 'value'))"
    );
}

#[test]
fn query_builder_it_builds_criteria_with_origin() {
    let query = query_with(vec![("foo_id", "value")]).change_origin(10);
    let criteria_builder = CriteriaBuilder::new(&query);

    assert_eq!(
        criteria_builder.build(),
        "(event_id > 10 AND ((event_type = 'Bar') OR (event_type = 'Foo' AND foo_id = 'value')))"
    );
}

#[test]
fn query_builder_it_builds_criteria_with_union() {
    let query: StreamQuery<TestEvent> = query_with(vec![("bar_id", "value1")])
        .union::<TestEvent, TestEvent>(&query_with(vec![("foo_id", "value2")]));
    let criteria_builder = CriteriaBuilder::new(&query);

    assert_eq!(
        criteria_builder.build(),
        "((event_type = 'Bar' AND bar_id = 'value1') OR (event_type = 'Foo')) OR ((event_type = 'Bar') OR (event_type = 'Foo' AND foo_id = 'value2'))"
    );
}

#[test]
fn query_builder_it_builds_criteria_with_excluded_events() {
    let query = query_with(vec![("bar_id", "value1")]).exclude_events(&["Bar"]);
    let criteria_builder = CriteriaBuilder::new(&query);

    assert_eq!(criteria_builder.build(), r#"((event_type = 'Foo'))"#);
}

#[test]
fn it_prefixes_columns_with_the_alias() {
    let query = query_with(vec![("foo_id", "value")]).change_origin(3);
    let criteria_builder = CriteriaBuilder::new(&query).alias("e");

    assert_eq!(
        criteria_builder.build(),
        "(e.event_id > 3 AND ((e.event_type = 'Bar') OR (e.event_type = 'Foo' AND e.foo_id = 'value')))"
    );
}

#[test]
fn it_writes_integer_values_unquoted() {
    let entries = vec![DomainIdentifier { key: ident("foo_id"), value: (-7i64).into_identifier_value() }];
    let query = query::<TestEvent, TestEvent>(Some(StreamFilter::<TestEvent>::new(DomainIdentifierSet::new(entries))))
        .exclude_events(&["Bar"]);

    assert_eq!(
        CriteriaBuilder::new(&query).build(),
        "((event_type = 'Foo' AND foo_id = -7))"
    );
}

#[test]
fn it_leaves_out_a_filter_whose_events_are_all_excluded() {
    let query = query::<TestEvent, TestEvent>(None).exclude_events(&["Bar", "Foo"]);

    assert_eq!(CriteriaBuilder::new(&query).build(), "()");
}
