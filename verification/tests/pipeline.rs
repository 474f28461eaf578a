use base64::engine::general_purpose::STANDARD;
use base64::Engine;
use pub_sub_client::attr::Attributes;
use pub_sub_client::error::Error;
use pub_sub_client::json::{JsonVal, JsonValue};
use pub_sub_client::publisher::encode_message_data;
use pub_sub_client::subscriber::{
    decode_message, deserialize, FromJsonValue, PubSubMessage, PulledMessage, ReceivedMessage,
};
use pub_sub_client::transform::Transform;

const TIME: &str = "2022-02-20T22:02:20.123456789Z";

#[derive(Debug, PartialEq, Eq)]
enum Message {
    Foo { text: String },
    Bar { text: String },
}

impl FromJsonValue for Message {
    // The two specification hooks are ghost code: outside of verification
    // their bodies are never consulted.
    fn spec_accepts(_v: JsonVal) -> bool {
        true
    }

    fn spec_matches(&self, _v: JsonVal) -> bool {
        true
    }

    fn try_from_json(v: JsonValue) -> Result<Self, String> {
        // Externally tagged: {"Foo": {"text": ...}} or {"Bar": {"text": ...}}.
        let (tag, inner) = match v {
            JsonValue::Object(members) if members.len() == 1 => {
                let mut members = members;
                members.remove(0)
            }
            _ => return Err("unknown shape".to_string()),
        };
        let text = match inner {
            JsonValue::Object(fields) if fields.len() == 1 && fields[0].0 == "text" => {
                match fields.into_iter().next().unwrap().1 {
                    JsonValue::Str(s) => s,
                    _ => return Err("unknown shape".to_string()),
                }
            }
            _ => return Err("unknown shape".to_string()),
        };
        match tag.as_str() {
            "Foo" => Ok(Message::Foo { text }),
            "Bar" => Ok(Message::Bar { text }),
            _ => Err("unknown tag".to_string()),
        }
    }
}

fn attrs(pairs: &[(&str, &str)]) -> Attributes {
    let mut a = Attributes::new();
    for (k, v) in pairs {
        a.insert(k.to_string(), v.to_string());
    }
    a
}

fn envelope(data: Option<String>, attributes: Attributes) -> ReceivedMessage {
    ReceivedMessage {
        ack_id: "ack_id".to_string(),
        message: PubSubMessage {
            data,
            attributes,
            id: "id".to_string(),
            publish_time: TIME.to_string(),
            ordering_key: Some("ordering_key".to_string()),
        },
        delivery_attempt: 1,
    }
}

fn encoded(v: JsonValue) -> String {
    encode_message_data(&v)
}

#[test]
fn test_deserialize_ok() {
    let received_messages = vec![
        ReceivedMessage {
            ack_id: "ack_id".to_string(),
            message: PubSubMessage {
                data: Some(encoded(JsonValue::Object(vec![(
                    "text".to_string(),
                    JsonValue::Str("test".to_string()),
                )]))),
                attributes: attrs(&[("type", "Foo")]),
                id: "id".to_string(),
                publish_time: TIME.to_string(),
                ordering_key: Some("ordering_key".to_string()),
            },
            delivery_attempt: 1,
        },
        ReceivedMessage {
            ack_id: "ack_id".to_string(),
            message: PubSubMessage {
                data: Some(encoded(JsonValue::Object(vec![(
                    "Bar".to_string(),
                    JsonValue::Object(vec![(
                        "text".to_string(),
                        JsonValue::Str("test".to_string()),
                    )]),
                )]))),
                attributes: attrs(&[("version", "v2")]),
                id: "id".to_string(),
                publish_time: TIME.to_string(),
                ordering_key: None,
            },
            delivery_attempt: 1,
        },
    ];
    let pulled_messages: Vec<PulledMessage<Message>> =
        deserialize(received_messages, &Transform::VersionedTypeTag);
    assert_eq!(pulled_messages.len(), 2);

    let pulled_message = &pulled_messages[0];
    assert_eq!(pulled_message.id, "id".to_string());
    assert_eq!(pulled_message.ack_id, "ack_id".to_string());
    assert_eq!(pulled_message.attributes, attrs(&[("type", "Foo")]));
    assert!(pulled_message.message.is_ok());
    assert_eq!(
        *pulled_message.message.as_ref().unwrap(),
        Message::Foo {
            text: "test".to_string()
        }
    );

    let pulled_message = &pulled_messages[1];
    assert_eq!(pulled_message.id, "id".to_string());
    assert_eq!(pulled_message.ack_id, "ack_id".to_string());
    assert!(pulled_message.message.is_ok());
    assert_eq!(
        *pulled_message.message.as_ref().unwrap(),
        Message::Bar {
            text: "test".to_string()
        }
    );
}

#[test]
fn mod_test_deserialize_ok() {
    // The same batch, decoded to plain JSON documents instead of a typed
    // message.
    let received_messages = vec![
        envelope(
            Some(encoded(JsonValue::Object(vec![(
                "text".to_string(),
                JsonValue::Str("test".to_string()),
            )]))),
            attrs(&[("type", "Foo")]),
        ),
        envelope(
            Some(encoded(JsonValue::Object(vec![(
                "Bar".to_string(),
                JsonValue::Object(vec![(
                    "text".to_string(),
                    JsonValue::Str("test".to_string()),
                )]),
            )]))),
            attrs(&[("version", "v2")]),
        ),
    ];
    let pulled_messages: Vec<PulledMessage<JsonValue>> =
        deserialize(received_messages, &Transform::VersionedTypeTag);
    assert_eq!(pulled_messages.len(), 2);
    assert_eq!(
        pulled_messages[0].message,
        Ok(JsonValue::Object(vec![(
            "Foo".to_string(),
            JsonValue::Object(vec![(
                "text".to_string(),
                JsonValue::Str("test".to_string()),
            )]),
        )]))
    );
    assert_eq!(
        pulled_messages[1].message,
        Ok(JsonValue::Object(vec![(
            "Bar".to_string(),
            JsonValue::Object(vec![(
                "text".to_string(),
                JsonValue::Str("test".to_string()),
            )]),
        )]))
    );
}

#[test]
fn round_trip_identity() {
    let v = JsonValue::Object(vec![
        ("text".to_string(), JsonValue::Str("wert\n".to_string())),
        ("n".to_string(), JsonValue::Int(-7)),
    ]);
    let expected = v.clone();
    let env = envelope(Some(encoded(v)), Attributes::new());
    let pulled: PulledMessage<JsonValue> = decode_message(env, &Transform::Identity);
    assert_eq!(pulled.message, Ok(expected));
}

#[test]
fn batch_isolation() {
    let good = JsonValue::Object(vec![("text".to_string(), JsonValue::Str("t".to_string()))]);
    let batch = vec![
        envelope(Some(encoded(good.clone())), Attributes::new()),
        envelope(Some("!!!not-base64!!!".to_string()), Attributes::new()),
        envelope(Some(encoded(good.clone())), Attributes::new()),
    ];
    let pulled: Vec<PulledMessage<JsonValue>> = deserialize(batch, &Transform::Identity);
    assert_eq!(pulled.len(), 3);
    assert_eq!(pulled[0].message, Ok(good.clone()));
    assert_eq!(pulled[1].message, Err(Error::DecodeBase64));
    assert_eq!(pulled[2].message, Ok(good));
}

#[test]
fn missing_data_is_an_error() {
    let env = envelope(None, Attributes::new());
    let pulled: PulledMessage<JsonValue> = decode_message(env, &Transform::Identity);
    assert_eq!(pulled.message, Err(Error::NoData));
    assert_eq!(pulled.delivery_attempt, 1);
    assert_eq!(pulled.ordering_key, Some("ordering_key".to_string()));
}

#[test]
fn malformed_json_is_an_error() {
    let env = envelope(Some(STANDARD.encode(b"{ not json")), Attributes::new());
    let pulled: PulledMessage<JsonValue> = decode_message(env, &Transform::Identity);
    assert_eq!(pulled.message, Err(Error::MalformedJson));
}

#[test]
fn transform_failure_stays_in_its_slot() {
    let value = JsonValue::Object(vec![("text".to_string(), JsonValue::Str("t".to_string()))]);
    let batch = vec![
        envelope(Some(encoded(value.clone())), attrs(&[("version", "v2")])),
        envelope(Some(encoded(value.clone())), attrs(&[("version", "v9")])),
    ];
    let pulled: Vec<PulledMessage<JsonValue>> =
        deserialize(batch, &Transform::VersionedTypeTag);
    assert_eq!(pulled.len(), 2);
    assert!(pulled[0].message.is_ok());
    assert!(matches!(pulled[1].message, Err(Error::Transform(_))));
}

#[test]
fn type_mismatch_is_an_error() {
    let env = envelope(Some(encoded(JsonValue::Int(3))), Attributes::new());
    let pulled: PulledMessage<Message> = decode_message(env, &Transform::Identity);
    assert_eq!(
        pulled.message,
        Err(Error::TypeMismatch {
            reason: "unknown shape".to_string()
        })
    );
}

#[test]
fn empty_batch_stays_empty() {
    let pulled: Vec<PulledMessage<JsonValue>> = deserialize(vec![], &Transform::Identity);
    assert!(pulled.is_empty());
}
