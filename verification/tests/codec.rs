use base64::engine::general_purpose::STANDARD;
use base64::Engine;
use pub_sub_client::b64::{base64_decode, base64_encode};
use pub_sub_client::json::JsonValue;
use pub_sub_client::json_parse::{parse_json_bytes, parse_json_text};
use pub_sub_client::json_text::{to_json_bytes, to_json_text};

fn sample_value() -> JsonValue {
    JsonValue::Object(vec![
        ("text".to_string(), JsonValue::Str("test".to_string())),
        ("count".to_string(), JsonValue::Int(-42)),
        ("flag".to_string(), JsonValue::Bool(true)),
        ("nothing".to_string(), JsonValue::Null),
        (
            "items".to_string(),
            JsonValue::Array(vec![
                JsonValue::Int(0),
                JsonValue::Str("a\"b\\c\n".to_string()),
                JsonValue::Object(vec![]),
            ]),
        ),
    ])
}

#[test]
fn json_text_exact() {
    let text = to_json_text(&sample_value());
    assert_eq!(
        text,
        "{\"text\":\"test\",\"count\":-42,\"flag\":true,\"nothing\":null,\
         \"items\":[0,\"a\\\"b\\\\c\\u000a\",{}]}"
    );
}

#[test]
fn json_round_trip() {
    let v = sample_value();
    let text = to_json_text(&v);
    let parsed = parse_json_text(&text).expect("own text must parse");
    assert_eq!(parsed, v);
}

#[test]
fn json_round_trip_bytes() {
    let v = JsonValue::Object(vec![(
        "greeting".to_string(),
        JsonValue::Str("grüß dich, \u{1F600}".to_string()),
    )]);
    let bytes = to_json_bytes(&v);
    let parsed = parse_json_bytes(bytes).expect("own bytes must parse");
    assert_eq!(parsed, v);
}

#[test]
fn json_parse_whitespace_and_escapes() {
    let text = " { \"a\" : [ 1 , \"x\\u0041\\n\" , null ] } ";
    let parsed = parse_json_text(text).expect("valid document");
    assert_eq!(
        parsed,
        JsonValue::Object(vec![(
            "a".to_string(),
            JsonValue::Array(vec![
                JsonValue::Int(1),
                JsonValue::Str("xA\n".to_string()),
                JsonValue::Null,
            ]),
        )])
    );
}

#[test]
fn json_parse_surrogate_pair() {
    let parsed = parse_json_text("\"\\uD83D\\uDE00\"").expect("paired surrogates are a char");
    assert_eq!(parsed, JsonValue::Str("\u{1F600}".to_string()));
}

#[test]
fn json_parse_rejects() {
    assert!(parse_json_text("").is_none());
    assert!(parse_json_text("{").is_none());
    assert!(parse_json_text("01").is_none());
    assert!(parse_json_text("1.5").is_none());
    assert!(parse_json_text("1e3").is_none());
    assert!(parse_json_text("\"\\uD800\"").is_none());
    assert!(parse_json_text("{\"a\":1,}").is_none());
    assert!(parse_json_text("[1 2]").is_none());
    assert!(parse_json_text("[1] trailing").is_none());
    assert!(parse_json_text("9223372036854775808").is_none());
    assert!(parse_json_text("-9223372036854775809").is_none());
}

#[test]
fn json_parse_int_bounds() {
    assert_eq!(
        parse_json_text("9223372036854775807"),
        Some(JsonValue::Int(i64::MAX))
    );
    assert_eq!(
        parse_json_text("-9223372036854775808"),
        Some(JsonValue::Int(i64::MIN))
    );
}

#[test]
fn json_agrees_with_serde() {
    let text = to_json_text(&sample_value());
    let v: serde_json::Value = serde_json::from_str(&text).expect("serde_json accepts our text");
    assert_eq!(v["text"], serde_json::Value::String("test".to_string()));
    assert_eq!(v["count"], serde_json::Value::from(-42i64));
    assert_eq!(v["flag"], serde_json::Value::Bool(true));
    assert_eq!(v["nothing"], serde_json::Value::Null);
    assert_eq!(v["items"][1], serde_json::Value::String("a\"b\\c\n".to_string()));
}

#[test]
fn base64_round_trip() {
    for bytes in [
        vec![],
        vec![0u8],
        vec![255u8, 0],
        vec![1u8, 2, 3],
        vec![1u8, 2, 3, 4],
        b"hello world, hello world!".to_vec(),
    ] {
        let encoded = base64_encode(&bytes);
        let decoded = base64_decode(&encoded).expect("own encoding must decode");
        assert_eq!(decoded, bytes);
    }
}

#[test]
fn base64_agrees_with_outside_crate() {
    for bytes in [
        vec![],
        vec![0u8],
        vec![251u8, 239],
        vec![1u8, 2, 3],
        b"{\"text\":\"test\"}".to_vec(),
    ] {
        let encoded = base64_encode(&bytes);
        assert_eq!(encoded, STANDARD.encode(&bytes));
        let decoded = base64_decode(&encoded).expect("canonical base64 decodes");
        assert_eq!(decoded, STANDARD.decode(&encoded).expect("outside crate agrees"));
    }
}

#[test]
fn base64_rejects_malformed() {
    assert!(base64_decode("abc").is_none());
    assert!(base64_decode("ab=c").is_none());
    assert!(base64_decode("!!!!").is_none());
}

#[test]
fn base64_rejects_nonzero_trailing_bits() {
    // QR== carries a one bit in the unused positions of the final symbol;
    // the outside crate's default engine rejects it too.
    assert!(base64_decode("QR==").is_none());
    assert!(STANDARD.decode("QR==").is_err());
    assert!(base64_decode("QUL=").is_none());
    assert!(STANDARD.decode("QUL=").is_err());
    // The canonical spellings of the same bytes decode on both sides.
    assert_eq!(base64_decode("QQ=="), Some(vec![0x41]));
    assert_eq!(STANDARD.decode("QQ==").unwrap(), vec![0x41]);
    assert_eq!(base64_decode("QUI="), Some(vec![0x41, 0x42]));
    assert_eq!(STANDARD.decode("QUI=").unwrap(), vec![0x41, 0x42]);
}

#[test]
fn json_empty_values_round_trip() {
    for v in [
        JsonValue::Str(String::new()),
        JsonValue::Array(vec![]),
        JsonValue::Object(vec![]),
        JsonValue::Int(i64::MIN),
        JsonValue::Int(0),
    ] {
        let text = to_json_text(&v);
        assert_eq!(parse_json_text(&text), Some(v));
    }
    assert_eq!(
        to_json_text(&JsonValue::Int(i64::MIN)),
        "-9223372036854775808"
    );
    assert_eq!(to_json_text(&JsonValue::Str(String::new())), "\"\"");
}
