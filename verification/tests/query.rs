use disintegrate::domain_identifier::{DomainIdentifier, DomainIdentifierSet};
use disintegrate::event::{DomainIdentifierInfo, Event, EventInfo, EventSchema};
use disintegrate::identifier::{Identifier, IdentifierType, IntoIdentifierValue};
use disintegrate::postgres::pg_query::PgQueryBuilder;
use disintegrate::postgres::query::QueryBuilderExt;
use sqlx::{Postgres, QueryBuilder};
use disintegrate::stream_query::{query, StreamFilter, StreamQuery};

#[allow(dead_code)]
#[derive(Clone)]
enum TestEvent {
    Bar { bar_id: String },
    Foo { foo_id: String },
}

fn ident(name: &'static str) -> Identifier {
    Identifier::new(name).unwrap()
}

fn leak<T>(v: Vec<T>) -> &'static [T] {
    Box::leak(v.into_boxed_slice())
}

fn stat<T>(v: T) -> &'static T {
    Box::leak(Box::new(v))
}

impl Event for TestEvent {
    fn schema() -> EventSchema {
        EventSchema {
            events: &["Bar", "Foo"],
            events_info: leak(vec![
                stat(EventInfo { name: "Bar", domain_identifiers: leak(vec![stat(ident("bar_id"))]) }),
                stat(EventInfo { name: "Foo", domain_identifiers: leak(vec![stat(ident("foo_id"))]) }),
            ]),
            domain_identifiers: leak(vec![
                stat(DomainIdentifierInfo { ident: ident("foo_id"), type_info: IdentifierType::String }),
                stat(DomainIdentifierInfo { ident: ident("bar_id"), type_info: IdentifierType::String }),
            ]),
        }
    }

    fn name(&self) -> &'static str {
        ""
    }

    fn domain_identifiers(&self) -> DomainIdentifierSet {
        DomainIdentifierSet::empty()
    }
}

fn query_with(ids: Vec<(&'static str, &'static str)>) -> StreamQuery<TestEvent> {
    let entries = ids
        .into_iter()
        .map(|(k, v)| DomainIdentifier { key: ident(k), value: v.into_identifier_value() })
        .collect();
    query::<TestEvent, TestEvent>(Some(StreamFilter::<TestEvent>::new(DomainIdentifierSet::new(entries))))
}

fn build_sql(query: &StreamQuery<TestEvent>) -> String {
    let mut qb = PgQueryBuilder(QueryBuilder::<Postgres>::new(""));
    qb.push_stream_query(query);
    qb.0.sql().to_string()
}

#[test]
fn query_it_builds_criteria() {
    let query = query::<TestEvent, TestEvent>(None);
    assert_eq!(
        build_sql(&query),
        "((event_type = $1) OR (event_type = $2))"
    );
}

#[test]
fn query_it_builds_criteria_with_an_id_filter() {
    let query = query_with(vec![("foo_id", "value")]);
    assert_eq!(
        build_sql(&query),
        "((event_type = $1) OR (event_type = $2 AND foo_id = $3))"
    );
}

#[test]
fn query_it_builds_criteria_with_two_ids() {
    let query = query_with(vec![("foo_id", "value"), ("bar_id", "value2")]);
    assert_eq!(
        build_sql(&query),
        "((event_type = $1 AND bar_id = $2) OR (event_type = $3 AND foo_id = $4))"
    );
}

#[test]
fn query_it_builds_criteria_with_origin() {
    let query = query_with(vec![("foo_id", "value")]).change_origin(10);
    assert_eq!(
        build_sql(&query),
        "(event_id > $1 AND ((event_type = $2) OR (event_type = $3 AND foo_id = $4)))"
    );
}

#[test]
fn query_it_builds_criteria_with_union() {
    let query: StreamQuery<TestEvent> = query_with(vec![("bar_id", "value1")])
        .union::<TestEvent, TestEvent>(&query_with(vec![("foo_id", "value2")]));
    assert_eq!(
        build_sql(&query),
        "((event_type = $1 AND bar_id = $2) OR (event_type = $3)) OR ((event_type = $4) OR (event_type = $5 AND foo_id = $6))"
    );
}

#[test]
fn query_it_builds_criteria_with_excluded_events() {
    let query = query_with(vec![("bar_id", "value1")]).exclude_events(&["Bar"]);
    assert_eq!(build_sql(&query), "((event_type = $1))");
}

#[test]
fn it_quotes_string_value_safely() {
    let query = query_with(vec![("foo_id", "abc' OR '1'='1")]);
    let mut qb = PgQueryBuilder(QueryBuilder::<Postgres>::new(""));
    qb.push_stream_query(&query);
    let sql = qb.0.sql();
    assert!(
        !sql.contains('\''),
        "value must not be inlined into the SQL, got: {sql}"
    );
    assert_eq!(
        sql,
        "((event_type = $1) OR (event_type = $2 AND foo_id = $3))"
    );
}

#[test]
fn it_numbers_placeholders_after_the_values_already_bound() {
    let mut inner = QueryBuilder::<Postgres>::new("SELECT * FROM event WHERE tenant = ");
    inner.push_bind(7i64);
    inner.push(" AND ");
    let mut qb = PgQueryBuilder(inner);
    qb.push_stream_query(&query_with(vec![("foo_id", "x")]).exclude_events(&["Bar"]));
    assert_eq!(
        qb.0.sql(),
        "SELECT * FROM event WHERE tenant = $1 AND ((event_type = $2 AND foo_id = $3))"
    );
}
