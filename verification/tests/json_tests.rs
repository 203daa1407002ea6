use arweave_tx_client::json::{parse_json, ser_json, u64_to_string, Json};

#[test]
fn parses_the_subset() {
    assert_eq!(parse_json("null"), Some(Json::Null));
    assert_eq!(parse_json(" 42 "), Some(Json::UInt(42)));
    assert_eq!(parse_json("\"a b\""), Some(Json::Str("a b".to_string())));
    assert_eq!(
        parse_json("[1, \"x\", null]"),
        Some(Json::Arr(vec![Json::UInt(1), Json::Str("x".to_string()), Json::Null]))
    );
    assert_eq!(
        parse_json("{\"k\": [ ]}"),
        Some(Json::Obj(vec![("k".to_string(), Json::Arr(vec![]))]))
    );
    assert_eq!(parse_json("18446744073709551615"), Some(Json::UInt(u64::MAX)));
}

#[test]
fn rejects_what_is_outside_the_subset() {
    assert_eq!(parse_json(""), None);
    assert_eq!(parse_json("nul"), None);
    assert_eq!(parse_json("true"), None);
    assert_eq!(parse_json("-1"), None);
    assert_eq!(parse_json("1.5"), None);
    assert_eq!(parse_json("\"\\u0041\""), None);
    assert_eq!(parse_json("{\"a\": 1} trailing"), None);
    assert_eq!(parse_json("[1, 2"), None);
    // one past u64::MAX must not wrap around
    assert_eq!(parse_json("18446744073709551616"), None);
}

#[test]
fn unescapes_strings() {
    assert_eq!(
        parse_json("\"a\\\"b\\\\c\\/d\\n\\t\\r\\b\\f\""),
        Some(Json::Str("a\"b\\c/d\n\t\r\u{8}\u{c}".to_string()))
    );
}

#[test]
fn serializes_canonically() {
    let j = Json::Obj(vec![
        ("a".to_string(), Json::Arr(vec![Json::UInt(1), Json::UInt(2)])),
        ("b".to_string(), Json::Str("x\"y\\z".to_string())),
        ("c".to_string(), Json::Null),
    ]);
    assert_eq!(ser_json(&j), "{\"a\":[1,2],\"b\":\"x\\\"y\\\\z\",\"c\":null}");
}

#[test]
fn serialize_then_parse_is_identity() {
    let j = Json::Obj(vec![
        ("deep".to_string(), Json::Arr(vec![Json::Obj(vec![]), Json::Arr(vec![Json::Null])])),
        ("n".to_string(), Json::UInt(0)),
        ("big".to_string(), Json::UInt(u64::MAX)),
    ]);
    let text = ser_json(&j);
    assert_eq!(parse_json(&text), Some(j));
}

#[test]
fn writes_decimals() {
    assert_eq!(u64_to_string(0), "0");
    assert_eq!(u64_to_string(10), "10");
    assert_eq!(u64_to_string(90210), "90210");
    assert_eq!(u64_to_string(u64::MAX), "18446744073709551615");
}
