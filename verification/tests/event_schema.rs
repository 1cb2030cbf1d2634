use disintegrate::event::{has_consistent_types, stream_events, unique_domain_identifiers, DomainIdentifierInfo};
use disintegrate::identifier::{Identifier, IdentifierType};
use disintegrate::utils::slices_concat;

fn info(name: &'static str, type_info: IdentifierType) -> &'static DomainIdentifierInfo {
    Box::leak(Box::new(DomainIdentifierInfo { ident: Identifier::new(name).unwrap(), type_info }))
}

fn idents(infos: &[&'static DomainIdentifierInfo]) -> Vec<(&'static str, IdentifierType)> {
    infos.iter().map(|i| (i.ident.into_inner(), i.type_info)).collect()
}

/// The domain identifiers of each variant of the user and order events, in variant order:
/// `UserCreated`, `UserUpdated`, `UserDeleted`, `OrderCreated`, `OrderCancelled`, `UserChanged`.
fn variants() -> Vec<Vec<&'static DomainIdentifierInfo>> {
    vec![
        vec![info("user_id", IdentifierType::String)],
        vec![info("user_id", IdentifierType::String)],
        vec![info("user_id", IdentifierType::String)],
        vec![info("order_id", IdentifierType::String)],
        vec![info("order_id", IdentifierType::String)],
        vec![],
    ]
}

fn schema_of(parts: &[Vec<&'static DomainIdentifierInfo>]) -> Vec<&'static DomainIdentifierInfo> {
    let mut all: Vec<&'static DomainIdentifierInfo> = Vec::new();
    for part in parts {
        all = slices_concat(&all, part);
    }
    assert!(has_consistent_types(&all));
    unique_domain_identifiers(&all)
}

#[test]
fn it_generates_domain_identifiers_schema_set() {
    let v = variants();
    assert_eq!(idents(&schema_of(&v[3..5])), vec![("order_id", IdentifierType::String)]);
    assert_eq!(idents(&schema_of(&v[0..3])), vec![("user_id", IdentifierType::String)]);
    assert_eq!(
        idents(&schema_of(&v)),
        vec![("order_id", IdentifierType::String), ("user_id", IdentifierType::String)]
    );
}

#[test]
fn unique_domain_identifiers_sorts_bytewise_and_keeps_first_info() {
    let b = info("b", IdentifierType::i64);
    let a = info("a", IdentifierType::Uuid);
    let upper = info("Z", IdentifierType::String);
    let b_again = info("b", IdentifierType::i64);
    let out = unique_domain_identifiers(&[b, a, upper, b_again, a]);
    assert_eq!(
        idents(&out),
        vec![("Z", IdentifierType::String), ("a", IdentifierType::Uuid), ("b", IdentifierType::i64)]
    );
    assert!(unique_domain_identifiers(&[]).is_empty());
}

#[test]
fn it_detects_inconsistent_identifier_types() {
    let all = [info("user_id", IdentifierType::String), info("user_id", IdentifierType::i64)];
    assert!(!has_consistent_types(&all));
    assert!(has_consistent_types(&[info("user_id", IdentifierType::i64), info("order_id", IdentifierType::String)]));
}

#[test]
fn slices_concat_keeps_order() {
    assert_eq!(slices_concat(&[1, 2], &[3]), vec![1, 2, 3]);
    assert_eq!(slices_concat::<u8>(&[], &[]), Vec::<u8>::new());
}

#[test]
fn stream_events_keep_the_order_of_the_event_type() {
    let events = ["UserCreated", "UserUpdated", "UserDeleted", "OrderCreated", "OrderCancelled", "UserChanged"];
    assert_eq!(
        stream_events(&events, &["UserCreated", "UserUpdated", "UserDeleted"]),
        vec!["UserCreated", "UserUpdated", "UserDeleted"]
    );
    assert_eq!(stream_events(&events, &["OrderCancelled", "OrderCreated"]), vec!["OrderCreated", "OrderCancelled"]);
    assert_eq!(stream_events(&events, &["Unknown", "UserChanged"]), vec!["UserChanged"]);
    assert!(stream_events(&events, &[]).is_empty());
}
