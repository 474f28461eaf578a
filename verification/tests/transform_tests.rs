use pub_sub_client::attr::Attributes;
use pub_sub_client::error::{Error, TransformError};
use pub_sub_client::json::JsonValue;
use pub_sub_client::subscriber::{PubSubMessage, ReceivedMessage};
use pub_sub_client::transform::{identity, insert_attribute, Transform};

fn received(attrs: Attributes) -> ReceivedMessage {
    ReceivedMessage {
        ack_id: "ack".to_string(),
        message: PubSubMessage {
            data: None,
            attributes: attrs,
            id: "id".to_string(),
            publish_time: "2022-02-20T22:02:20.123456789Z".to_string(),
            ordering_key: None,
        },
        delivery_attempt: 1,
    }
}

#[test]
fn identity_returns_value_unchanged() {
    let msg = received(Attributes::new());
    let value = JsonValue::Array(vec![JsonValue::Int(1), JsonValue::Null]);
    let expected = JsonValue::Array(vec![JsonValue::Int(1), JsonValue::Null]);
    assert_eq!(identity(&msg, value), Ok(expected));
}

#[test]
fn insert_attribute_adds_discriminant() {
    let mut attrs = Attributes::new();
    attrs.insert("type".to_string(), "Foo".to_string());
    let msg = received(attrs);
    let value = JsonValue::Object(vec![("text".to_string(), JsonValue::Str("t".to_string()))]);
    let result = insert_attribute("type", &msg, value);
    assert_eq!(
        result,
        Ok(JsonValue::Object(vec![
            ("text".to_string(), JsonValue::Str("t".to_string())),
            ("type".to_string(), JsonValue::Str("Foo".to_string())),
        ]))
    );
}

#[test]
fn insert_attribute_replaces_existing_key_in_place() {
    let mut attrs = Attributes::new();
    attrs.insert("type".to_string(), "Foo".to_string());
    let msg = received(attrs);
    let value = JsonValue::Object(vec![
        ("type".to_string(), JsonValue::Str("old".to_string())),
        ("text".to_string(), JsonValue::Str("t".to_string())),
    ]);
    let result = insert_attribute("type", &msg, value);
    assert_eq!(
        result,
        Ok(JsonValue::Object(vec![
            ("type".to_string(), JsonValue::Str("Foo".to_string())),
            ("text".to_string(), JsonValue::Str("t".to_string())),
        ]))
    );
}

#[test]
fn insert_attribute_missing_key() {
    let msg = received(Attributes::new());
    let value = JsonValue::Object(vec![("text".to_string(), JsonValue::Str("t".to_string()))]);
    let result = insert_attribute("type", &msg, value);
    assert_eq!(
        result,
        Err(Error::Transform(TransformError::MissingAttribute(
            "type".to_string()
        )))
    );
}

#[test]
fn insert_attribute_rejects_non_object() {
    let mut attrs = Attributes::new();
    attrs.insert("type".to_string(), "Foo".to_string());
    let msg = received(attrs);
    let value = JsonValue::Array(vec![]);
    let result = insert_attribute("type", &msg, value);
    assert_eq!(
        result,
        Err(Error::Transform(TransformError::UnexpectedValue(
            JsonValue::Array(vec![])
        )))
    );
}

#[test]
fn versioned_longest_path_first() {
    let mut attrs = Attributes::new();
    attrs.insert("type".to_string(), "A".to_string());
    attrs.insert("type.x".to_string(), "B".to_string());
    let msg = received(attrs);
    let value = JsonValue::Object(vec![(
        "x".to_string(),
        JsonValue::Object(vec![("y".to_string(), JsonValue::Int(1))]),
    )]);
    let result = Transform::VersionedTypeTag.apply(&msg, value);
    // The deeper path is applied first, then the outer tag wraps the whole
    // result.
    assert_eq!(
        result,
        Ok(JsonValue::Object(vec![(
            "A".to_string(),
            JsonValue::Object(vec![(
                "x".to_string(),
                JsonValue::Object(vec![(
                    "B".to_string(),
                    JsonValue::Object(vec![("y".to_string(), JsonValue::Int(1))]),
                )]),
            )]),
        )]))
    );
}

#[test]
fn versioned_missing_path_is_skipped() {
    let mut attrs = Attributes::new();
    attrs.insert("type.absent".to_string(), "B".to_string());
    let msg = received(attrs);
    let value = JsonValue::Object(vec![("y".to_string(), JsonValue::Int(1))]);
    let result = Transform::VersionedTypeTag.apply(&msg, value);
    assert_eq!(
        result,
        Ok(JsonValue::Object(vec![("y".to_string(), JsonValue::Int(1))]))
    );
}

#[test]
fn versioned_v2_passes_through() {
    let mut attrs = Attributes::new();
    attrs.insert("version".to_string(), "v2".to_string());
    attrs.insert("type".to_string(), "A".to_string());
    let msg = received(attrs);
    let value = JsonValue::Object(vec![("y".to_string(), JsonValue::Int(1))]);
    let result = Transform::VersionedTypeTag.apply(&msg, value);
    assert_eq!(
        result,
        Ok(JsonValue::Object(vec![("y".to_string(), JsonValue::Int(1))]))
    );
}

#[test]
fn versioned_unknown_version_rejected() {
    let mut attrs = Attributes::new();
    attrs.insert("version".to_string(), "v3".to_string());
    let msg = received(attrs);
    let value = JsonValue::Object(vec![("y".to_string(), JsonValue::Int(1))]);
    let result = Transform::VersionedTypeTag.apply(&msg, value);
    assert_eq!(
        result,
        Err(Error::Transform(TransformError::UnknownVersion(
            "v3".to_string()
        )))
    );
}

#[test]
fn attributes_insert_and_get() {
    let mut attrs = Attributes::new();
    assert_eq!(attrs.get("a"), None);
    attrs.insert("a".to_string(), "1".to_string());
    attrs.insert("b".to_string(), "2".to_string());
    attrs.insert("a".to_string(), "3".to_string());
    assert_eq!(attrs.len(), 2);
    assert_eq!(attrs.get("a"), Some(&"3".to_string()));
    assert_eq!(attrs.get("b"), Some(&"2".to_string()));
    assert_eq!(attrs.key_at(0).as_str(), "a");
    assert_eq!(attrs.val_at(0).as_str(), "3");
}
