use pub_sub_client::attr::Attributes;
use pub_sub_client::error::Error;
use pub_sub_client::json::{JsonVal, JsonValue};
use pub_sub_client::publisher::{
    make_raw_messages, publish_batch_body, MessageEnvelope, PublisherMessage,
    RawPublishedMessage,
};
use pub_sub_client::subscriber::{handle_pull_response, PulledMessage};
use pub_sub_client::transform::Transform;
use pub_sub_client::wire::{
    acknowledge_request_body, parse_publish_response, parse_pull_response, project_url,
    publish_request_body, pull_request_body, subscription_url, topic_url,
};

struct Brittle {
    ok: bool,
}

impl PublisherMessage for Brittle {
    // The specification hook is ghost code: outside of verification its body
    // is never consulted.
    fn spec_to_json(&self) -> Option<JsonVal> {
        None
    }

    fn to_json_value(self) -> Result<JsonValue, String> {
        if self.ok {
            Ok(JsonValue::Object(vec![(
                "text".to_string(),
                JsonValue::Str("t".to_string()),
            )]))
        } else {
            Err("unsupported structure".to_string())
        }
    }
}

#[test]
fn pull_request_exact() {
    assert_eq!(pull_request_body(42), b"{\"maxMessages\":42}".to_vec());
}

#[test]
fn acknowledge_request_exact() {
    let ids = vec!["a1".to_string(), "b2".to_string()];
    assert_eq!(
        acknowledge_request_body(&ids),
        b"{\"ackIds\":[\"a1\",\"b2\"]}".to_vec()
    );
}

#[test]
fn acknowledge_request_carries_all_ids() {
    // All-or-nothing acknowledging starts with one request holding every id;
    // the service accepts all of them or, on any invalid id, none.
    let ids = vec![
        "valid1".to_string(),
        "invalid".to_string(),
        "valid2".to_string(),
    ];
    let body = String::from_utf8(acknowledge_request_body(&ids)).unwrap();
    assert_eq!(body, "{\"ackIds\":[\"valid1\",\"invalid\",\"valid2\"]}");
}

#[test]
fn ack_all_or_nothing_error_surface() {
    // A service that refuses one id of the batch answers 400 for the whole
    // request; the caller gets a single aggregate error.
    let err = Error::unexpected_http_status_code(
        400,
        "{\"error\":{\"message\":\"Invalid ack ID\"}}",
    );
    assert_eq!(
        err,
        Error::UnexpectedHttpStatusCode(400, "\"Invalid ack ID\"".to_string())
    );
}

#[test]
fn publish_request_exact() {
    let mut attrs = Attributes::new();
    attrs.insert("type".to_string(), "Foo".to_string());
    let messages = vec![
        RawPublishedMessage::new("QUJD".to_string())
            .with_attributes(attrs)
            .with_ordering_key("k".to_string()),
        RawPublishedMessage::new("RA==".to_string()),
    ];
    let body = String::from_utf8(publish_request_body(messages)).unwrap();
    assert_eq!(
        body,
        "{\"messages\":[{\"data\":\"QUJD\",\"attributes\":{\"type\":\"Foo\"},\
         \"orderingKey\":\"k\"},{\"data\":\"RA==\"}]}"
    );
}

#[test]
fn publish_fail_fast() {
    // Message 2 of 3 cannot be serialized: the whole call fails before any
    // request body exists, so nothing can reach a transport.
    let envelopes = vec![
        MessageEnvelope::new(Brittle { ok: true }),
        MessageEnvelope::new(Brittle { ok: false }),
        MessageEnvelope::new(Brittle { ok: true }),
    ];
    let result = publish_batch_body(envelopes, None);
    assert!(matches!(result, Err(Error::Serialize { .. })));

    let envelopes = vec![
        MessageEnvelope::new(Brittle { ok: true }),
        MessageEnvelope::new(Brittle { ok: false }),
    ];
    let result = make_raw_messages(envelopes, None);
    assert!(matches!(result, Err(Error::Serialize { .. })));
}

#[test]
fn publish_batch_body_ok() {
    let envelopes = vec![MessageEnvelope::new(JsonValue::Object(vec![(
        "text".to_string(),
        JsonValue::Str("test".to_string()),
    )]))];
    let body = publish_batch_body(envelopes, Some("ok")).expect("serializable batch");
    let body = String::from_utf8(body).unwrap();
    // base64 of {"text":"test"}
    assert_eq!(
        body,
        "{\"messages\":[{\"data\":\"eyJ0ZXh0IjoidGVzdCJ9\",\"orderingKey\":\"ok\"}]}"
    );
}

#[test]
fn parse_publish_response_ok() {
    let r = parse_publish_response("{\"messageIds\":[\"1\",\"2\",\"3\"]}");
    assert_eq!(
        r,
        Ok(vec!["1".to_string(), "2".to_string(), "3".to_string()])
    );
}

#[test]
fn parse_publish_response_shape_errors() {
    assert!(matches!(
        parse_publish_response("not json"),
        Err(Error::UnexpectedHttpResponse { .. })
    ));
    assert!(matches!(
        parse_publish_response("{\"messageIds\":\"1\"}"),
        Err(Error::UnexpectedHttpResponse { .. })
    ));
    assert!(matches!(
        parse_publish_response("{\"messageIds\":[1]}"),
        Err(Error::UnexpectedHttpResponse { .. })
    ));
    assert!(matches!(
        parse_publish_response("{}"),
        Err(Error::UnexpectedHttpResponse { .. })
    ));
}

#[test]
fn parse_pull_response_ok() {
    let body = "{\"receivedMessages\":[{\"ackId\":\"a\",\"message\":{\
                 \"data\":\"eyJ0ZXh0IjoidGVzdCJ9\",\
                 \"attributes\":{\"type\":\"Foo\"},\
                 \"messageId\":\"m1\",\
                 \"publishTime\":\"2022-02-20T22:02:20.123456789Z\",\
                 \"orderingKey\":\"k\"},\
                 \"deliveryAttempt\":2}]}";
    let envelopes = parse_pull_response(body).expect("well-shaped response");
    assert_eq!(envelopes.len(), 1);
    let e = &envelopes[0];
    assert_eq!(e.ack_id, "a");
    assert_eq!(e.delivery_attempt, 2);
    assert_eq!(e.message.id, "m1");
    assert_eq!(e.message.data, Some("eyJ0ZXh0IjoidGVzdCJ9".to_string()));
    assert_eq!(e.message.publish_time, "2022-02-20T22:02:20.123456789Z");
    assert_eq!(e.message.ordering_key, Some("k".to_string()));
    assert_eq!(e.message.attributes.get("type"), Some(&"Foo".to_string()));
}

#[test]
fn parse_pull_response_emulator_defaults() {
    // The emulator omits deliveryAttempt; attributes and data and the
    // ordering key may be absent too.
    let body = "{\"receivedMessages\":[{\"ackId\":\"a\",\"message\":{\
                 \"messageId\":\"m1\",\
                 \"publishTime\":\"2022-02-20T22:02:20Z\"}}]}";
    let envelopes = parse_pull_response(body).expect("well-shaped response");
    assert_eq!(envelopes.len(), 1);
    let e = &envelopes[0];
    assert_eq!(e.delivery_attempt, 0);
    assert_eq!(e.message.data, None);
    assert_eq!(e.message.ordering_key, None);
    assert_eq!(e.message.attributes, Attributes::new());
}

#[test]
fn parse_pull_response_validates_publish_time() {
    // The publish time must be an RFC 3339 timestamp; anything else is a
    // shape error, as when a typed timestamp parser rejects the envelope.
    let shaped = |stamp: &str| {
        format!(
            "{{\"receivedMessages\":[{{\"ackId\":\"a\",\"message\":{{\
             \"messageId\":\"m1\",\"publishTime\":\"{stamp}\"}}}}]}}"
        )
    };
    // Accepted: offsets, lowercase markers, fractions, a leap day.
    for stamp in [
        "2022-02-20T22:02:20Z",
        "2022-02-20t22:02:20z",
        "2022-02-20T22:02:20.123456789Z",
        "2022-02-20T22:02:20+05:30",
        "2022-02-20T22:02:20.5-01:00",
        "2024-02-29T00:00:00Z",
    ] {
        assert!(parse_pull_response(&shaped(stamp)).is_ok(), "{stamp}");
    }
    // Rejected: free text, bad month, a non-leap 29 February, missing
    // offset, empty or over-long fraction.
    for stamp in [
        "yesterday",
        "2022-13-01T00:00:00Z",
        "2023-02-29T00:00:00Z",
        "2022-02-20T22:02:20",
        "2022-02-20T22:02:20.Z",
        "2022-02-20T22:02:20.1234567890Z",
        "2022-02-20T24:00:00Z",
        "2022-02-20 22:02:20Z",
    ] {
        assert!(
            matches!(
                parse_pull_response(&shaped(stamp)),
                Err(Error::UnexpectedHttpResponse { .. })
            ),
            "{stamp}"
        );
    }
}

#[test]
fn parse_pull_response_absent_batch_is_empty() {
    assert_eq!(parse_pull_response("{}"), Ok(vec![]));
}

#[test]
fn parse_pull_response_shape_errors() {
    assert!(matches!(
        parse_pull_response("[1,2]"),
        Err(Error::UnexpectedHttpResponse { .. })
    ));
    assert!(matches!(
        parse_pull_response("{\"receivedMessages\":[{\"ackId\":7}]}"),
        Err(Error::UnexpectedHttpResponse { .. })
    ));
    assert!(matches!(
        parse_pull_response("{\"receivedMessages\":[{\"ackId\":\"a\"}]}"),
        Err(Error::UnexpectedHttpResponse { .. })
    ));
}

#[test]
fn status_code_error_extraction() {
    let err = Error::unexpected_http_status_code(
        404,
        "{\"error\":{\"message\":\"Subscription does not exist\",\"code\":404}}",
    );
    assert_eq!(
        err,
        Error::UnexpectedHttpStatusCode(404, "\"Subscription does not exist\"".to_string())
    );

    // Without an error body, the message member reads as null.
    let err = Error::unexpected_http_status_code(500, "{}");
    assert_eq!(err, Error::UnexpectedHttpStatusCode(500, "null".to_string()));

    // A body that is not JSON is carried as it is.
    let err = Error::unexpected_http_status_code(502, "Bad Gateway");
    assert_eq!(
        err,
        Error::UnexpectedHttpStatusCode(502, "Bad Gateway".to_string())
    );
}

#[test]
fn handle_pull_response_decodes_batch() {
    let body = "{\"receivedMessages\":[{\"ackId\":\"a\",\"message\":{\
                 \"data\":\"eyJ0ZXh0IjoidGVzdCJ9\",\
                 \"messageId\":\"m1\",\
                 \"publishTime\":\"2022-02-20T22:02:20Z\"}}]}";
    let pulled: Vec<PulledMessage<JsonValue>> =
        handle_pull_response(body, &Transform::Identity).expect("well-shaped response");
    assert_eq!(pulled.len(), 1);
    assert_eq!(
        pulled[0].message,
        Ok(JsonValue::Object(vec![(
            "text".to_string(),
            JsonValue::Str("test".to_string()),
        )]))
    );
    assert_eq!(pulled[0].id, "m1");
}

#[test]
fn url_building() {
    let base = project_url("http://localhost:8085", "cryptic-hawk-336616");
    assert_eq!(base, "http://localhost:8085/v1/projects/cryptic-hawk-336616");
    assert_eq!(
        topic_url(&base, "test-topic"),
        "http://localhost:8085/v1/projects/cryptic-hawk-336616/topics/test-topic:publish"
    );
    assert_eq!(
        subscription_url(&base, "test-subscription", "pull"),
        "http://localhost:8085/v1/projects/cryptic-hawk-336616/subscriptions/\
         test-subscription:pull"
    );
}

#[test]
fn raw_message_builders() {
    let m = RawPublishedMessage::new("AA==".to_string());
    assert_eq!(m.data, Some("AA==".to_string()));
    assert_eq!(m.attributes, None);
    assert_eq!(m.ordering_key, None);
    let m = m.with_data("AQ==".to_string());
    assert_eq!(m.data, Some("AQ==".to_string()));
    let mut attrs = Attributes::new();
    attrs.insert("k".to_string(), "v".to_string());
    let m = m.with_attributes(attrs.clone());
    assert_eq!(m.attributes, Some(attrs));
    let m = m.with_ordering_key("ord".to_string());
    assert_eq!(m.ordering_key, Some("ord".to_string()));
}
