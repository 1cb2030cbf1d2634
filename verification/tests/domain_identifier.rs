use disintegrate::domain_id::{DomainId, DomainIdSet};
use disintegrate::domain_identifier::{DomainIdentifier, DomainIdentifierSet};
use disintegrate::identifier::{Identifier, IntoIdentifierValue};

fn id(k: &'static str, v: &str) -> DomainIdentifier {
    DomainIdentifier { key: Identifier::new(k).unwrap(), value: v.into_identifier_value() }
}

#[test]
fn a_set_iterates_in_key_order_and_keeps_the_last_value() {
    let set = DomainIdentifierSet::new(vec![id("id2", "b"), id("id1", "a"), id("id2", "c")]);
    assert_eq!(set.len(), 2);
    assert_eq!(*set.entry(0).key, "id1");
    assert_eq!(*set.entry(1).key, "id2");
    assert_eq!(set.get(&Identifier::new("id2").unwrap()), Some(&"c".into_identifier_value()));
    assert_eq!(set.get(&Identifier::new("id3").unwrap()), None);
}

#[test]
fn a_read_after_an_insert_gives_the_inserted_value() {
    let mut set = DomainIdentifierSet::new(vec![id("id1", "value1"), id("id2", "value2")]);
    set.insert(id("id3", "value3"));
    assert_eq!(set.len(), 3);
    assert_eq!(set.get(&Identifier::new("id1").unwrap()), Some(&"value1".into_identifier_value()));
    assert_eq!(set.get(&Identifier::new("id3").unwrap()), Some(&"value3".into_identifier_value()));
    set.insert(id("id1", "other"));
    assert_eq!(set.len(), 3);
    assert_eq!(set.get(&Identifier::new("id1").unwrap()), Some(&"other".into_identifier_value()));
}

#[test]
fn sets_with_the_same_identifiers_are_equal() {
    let a = DomainIdentifierSet::new(vec![id("x", "1"), id("y", "2")]);
    let b = DomainIdentifierSet::new(vec![id("y", "2"), id("x", "1")]);
    let c = DomainIdentifierSet::new(vec![id("y", "2"), id("x", "3")]);
    assert!(a == b);
    assert!(a != c);
    assert!(DomainIdentifierSet::empty().is_empty());
}

#[test]
fn domain_ids_behave_as_domain_identifiers() {
    let mut ids = DomainIdSet::new(vec![
        DomainId { key: Identifier::new("id1").unwrap(), value: "value1".into_identifier_value() },
        DomainId { key: Identifier::new("id2").unwrap(), value: "value2".into_identifier_value() },
    ]);
    ids.insert(DomainId { key: Identifier::new("id3").unwrap(), value: "value3".into_identifier_value() });
    assert_eq!(ids.len(), 3);
    assert_eq!(ids.get(&Identifier::new("id1").unwrap()), Some(&"value1".into_identifier_value()));
    assert_eq!(ids.get(&Identifier::new("id2").unwrap()), Some(&"value2".into_identifier_value()));
}
