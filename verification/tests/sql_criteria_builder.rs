use disintegrate::domain_identifier::DomainIdentifierSet;
use disintegrate::event::{Event, EventSchema};
use disintegrate::filter_expr::{ExprQuery, FilterExpr};
use disintegrate::identifier::{Identifier, IntoIdentifierValue};
use disintegrate::postgres::sql_criteria_builder::SqlEventsCriteriaBuilder;

#[derive(Clone)]
enum TestEvent {}

impl Event for TestEvent {
    fn schema() -> EventSchema {
        EventSchema { events: &[], events_info: &[], domain_identifiers: &[] }
    }

    fn name(&self) -> &'static str {
        ""
    }

    fn domain_identifiers(&self) -> DomainIdentifierSet {
        DomainIdentifierSet::empty()
    }
}

#[derive(Clone)]
enum NamedEvent {}

impl Event for NamedEvent {
    fn schema() -> EventSchema {
        EventSchema { events: &["Opened", "Closed"], events_info: &[], domain_identifiers: &[] }
    }

    fn name(&self) -> &'static str {
        ""
    }

    fn domain_identifiers(&self) -> DomainIdentifierSet {
        DomainIdentifierSet::empty()
    }
}

fn eq(ident: &'static str, value: &str) -> FilterExpr {
    FilterExpr::eq(Identifier::new(ident).unwrap(), value.into_identifier_value())
}

#[test]
fn it_build_eq_filter() {
    let query = ExprQuery::<TestEvent>::new(Some(eq("filed", "value")));
    let result = SqlEventsCriteriaBuilder::new(&query).build();
    assert_eq!(
        result,
        r#"(id >= 0 AND true) AND (domain_identifiers @> '{"filed":"value"}') AND true"#
    );
}

#[test]
fn it_build_and_filter() {
    let query = ExprQuery::<TestEvent>::new(Some(FilterExpr::and(eq("filed1", "value"), eq("field2", "value2"))));
    let result = SqlEventsCriteriaBuilder::new(&query).build();

    assert_eq!(
        result,
        r#"(id >= 0 AND true) AND ((domain_identifiers @> '{"filed1":"value"}') AND (domain_identifiers @> '{"field2":"value2"}')) AND true"#
    );
}

#[test]
fn it_build_or_filter() {
    let query = ExprQuery::<TestEvent>::new(Some(FilterExpr::or(eq("filed1", "value"), eq("field2", "value2"))));
    let result = SqlEventsCriteriaBuilder::new(&query).build();

    assert_eq!(
        result,
        r#"(id >= 0 AND true) AND ((domain_identifiers @> '{"filed1":"value"}') OR (domain_identifiers @> '{"field2":"value2"}')) AND true"#
    );
}

#[test]
fn it_build_with_origin() {
    let query = ExprQuery::<TestEvent>::new(Some(eq("filed", "value")));
    let result = SqlEventsCriteriaBuilder::new(&query).with_origin(10).build();

    assert_eq!(
        result,
        r#"(id >= 10 AND true) AND (domain_identifiers @> '{"filed":"value"}') AND true"#
    );
}

#[test]
fn it_build_with_last_event_id() {
    let query = ExprQuery::<TestEvent>::new(Some(eq("filed", "value")));
    let result = SqlEventsCriteriaBuilder::new(&query).with_last_event_id(20).build();

    assert_eq!(
        result,
        r#"(id >= 0 AND id <= 20) AND (domain_identifiers @> '{"filed":"value"}') AND true"#
    );
}

#[test]
fn it_lists_the_event_names_and_takes_the_query_origin() {
    let query = ExprQuery::<NamedEvent>::new(None).change_origin(-3);
    let result = SqlEventsCriteriaBuilder::new(&query).build();

    assert_eq!(
        result,
        "(id >= -3 AND true) AND (true) AND event_type IN ('Opened','Closed')"
    );
}

#[test]
fn it_writes_integer_values_in_decimal() {
    let expr = FilterExpr::eq(Identifier::new("n").unwrap(), (-120i64).into_identifier_value());
    let query = ExprQuery::<TestEvent>::new(Some(expr));
    let result = SqlEventsCriteriaBuilder::new(&query).build();

    assert_eq!(
        result,
        r#"(id >= 0 AND true) AND (domain_identifiers @> '{"n":"-120"}') AND true"#
    );
}
