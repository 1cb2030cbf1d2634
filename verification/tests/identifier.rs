use disintegrate::identifier::{first_reserved_identifier, Identifier, IdentifierType, IdentifierValue, IntoIdentifierValue};

#[test]
fn it_can_create_valid_identifier() {
    let identifier = Identifier::new("hello_world").unwrap();
    assert_eq!(*identifier, "hello_world".to_string());
}

#[test]
fn it_cannot_create_empty_identifier() {
    let err = Identifier::new("").unwrap_err();
    assert_eq!(err.to_string(), "Invalid identifier: ");
}

#[test]
fn it_cannot_create_identifier_with_spaces() {
    let err = Identifier::new("hello world").unwrap_err();
    assert_eq!(err.to_string(), "Invalid identifier: hello world");
}

#[test]
fn it_cannot_create_non_ascii_identifier() {
    let err = Identifier::new("héllo").unwrap_err();
    assert_eq!(err.to_string(), "Invalid identifier: héllo");
}

#[test]
fn it_converts_string_into_identifier_value() {
    let string_value: &'static str = "my_string";
    let identifier_value = string_value.into_identifier_value();
    assert_eq!(
        identifier_value,
        IdentifierValue::String("my_string".to_string())
    );
}

#[test]
fn it_converts_integer_into_identifier_value() {
    let number: i64 = 42;
    let identifier_value = number.into_identifier_value();
    assert_eq!(identifier_value, IdentifierValue::i64(42));
}

#[test]
fn it_can_parse_identifier_from_string() {
    let identifier: Identifier = "hello_world".try_into().unwrap();
    assert_eq!(*identifier, "hello_world".to_string());
}

#[test]
fn it_cannot_parse_empty_identifier() {
    let err = TryInto::<Identifier>::try_into("").unwrap_err();
    assert_eq!(err.to_string(), "Invalid identifier: ");
}

#[test]
fn it_cannot_parse_identifier_with_spaces() {
    let err = TryInto::<Identifier>::try_into("hello world").unwrap_err();
    assert_eq!(err.to_string(), "Invalid identifier: hello world");
}

#[test]
fn it_cannot_parse_non_ascii_identifier() {
    let err = TryInto::<Identifier>::try_into("héllo").unwrap_err();
    assert_eq!(err.to_string(), "Invalid identifier: héllo");
}

#[test]
fn it_converts_uuid_into_identifier_value() {
    let uuid_value = uuid::Uuid::new_v4();
    let identifier_value = uuid_value.into_identifier_value();
    assert_eq!(identifier_value, IdentifierValue::Uuid(uuid_value.as_u128()));
}

#[test]
fn it_displays_identifier_values() {
    assert_eq!(IdentifierValue::i64(-42).to_string(), "-42");
    assert_eq!(IdentifierValue::i64(0).to_string(), "0");
    assert_eq!("abc".into_identifier_value().to_string(), "abc");
    let u = uuid::Uuid::from_u128(0x0123_4567_89ab_cdef_0123_4567_89ab_cdef);
    assert_eq!(
        u.into_identifier_value().to_string(),
        "01234567-89ab-cdef-0123-456789abcdef"
    );
}

#[test]
fn it_reports_the_type_of_identifier_values() {
    assert_eq!(IdentifierValue::i64(1).identifier_type(), IdentifierType::i64);
    assert_eq!("x".into_identifier_value().identifier_type(), IdentifierType::String);
    assert_eq!(<uuid::Uuid as IntoIdentifierValue>::identifier_type(), IdentifierType::Uuid);
}

#[test]
fn it_checks_identifier_syntax() {
    assert!(Identifier::is_valid_identifier("my_identifier"));
    assert!(Identifier::is_valid_identifier("_x9"));
    assert!(!Identifier::is_valid_identifier("123"));
    assert!(!Identifier::is_valid_identifier("a-b"));
}

#[test]
fn it_finds_the_first_reserved_identifier() {
    let names = ["user_id", "payload", "event_id"].map(|n| Identifier::new(n).unwrap());
    assert_eq!(first_reserved_identifier(&names), Some(1));
    let names = ["user_id", "order_id"].map(|n| Identifier::new(n).unwrap());
    assert_eq!(first_reserved_identifier(&names), None);
    assert_eq!(first_reserved_identifier(&[]), None);
}
