use dmhelper::json::JsonValue;
use dmhelper::parse::{parse, parse_price_cents, strip_quotes_exec, FieldName, ParseError};

fn obj(entries: Vec<(&str, JsonValue)>) -> JsonValue {
    JsonValue::Obj(entries.into_iter().map(|(k, v)| (k.to_string(), v)).collect())
}

fn nivea_payload() -> JsonValue {
    obj(vec![
        ("gtin", JsonValue::Num("4008400109609".to_string())),
        ("title", obj(vec![("headline", JsonValue::Str("Nivea Creme".to_string()))])),
        ("price", obj(vec![("price", JsonValue::Str("2.99".to_string()))])),
        (
            "images",
            JsonValue::Arr(vec![obj(vec![("src", JsonValue::Str("http://x/y.jpg".to_string()))])]),
        ),
    ])
}

#[test]
fn nivea_payload_parses_to_expected_record() {
    let record = parse(&nivea_payload()).unwrap();
    assert_eq!(record.identifier, "4008400109609");
    assert_eq!(record.name, "Nivea Creme");
    assert_eq!(record.unit_price_cents, 299);
    assert_eq!(record.image_reference.as_deref(), Some("http://x/y.jpg"));
}

#[test]
fn parse_is_deterministic() {
    let a = parse(&nivea_payload()).unwrap();
    let b = parse(&nivea_payload()).unwrap();
    assert_eq!(a.identifier, b.identifier);
    assert_eq!(a.name, b.name);
    assert_eq!(a.unit_price_cents, b.unit_price_cents);
    assert_eq!(a.image_reference, b.image_reference);
}

#[test]
fn empty_object_is_unexpected_shape() {
    let r = parse(&obj(vec![]));
    assert_eq!(r.unwrap_err(), ParseError::UnexpectedShape);
}

#[test]
fn non_object_payload_is_unexpected_shape() {
    assert_eq!(parse(&JsonValue::Null).unwrap_err(), ParseError::UnexpectedShape);
    assert_eq!(
        parse(&JsonValue::Str("hello".to_string())).unwrap_err(),
        ParseError::UnexpectedShape
    );
    assert_eq!(
        parse(&JsonValue::Arr(vec![nivea_payload()])).unwrap_err(),
        ParseError::UnexpectedShape
    );
}

#[test]
fn unparseable_price_degrades_to_zero() {
    let payload = obj(vec![
        ("gtin", JsonValue::Num("1".to_string())),
        ("title", obj(vec![("headline", JsonValue::Str("Thing".to_string()))])),
        ("price", obj(vec![("price", JsonValue::Str("N/A".to_string()))])),
        ("images", JsonValue::Arr(vec![])),
    ]);
    let record = parse(&payload).unwrap();
    assert_eq!(record.unit_price_cents, 0);
    assert_eq!(record.image_reference, None);
}

#[test]
fn string_typed_identifier_is_rejected() {
    let payload = obj(vec![
        ("gtin", JsonValue::Str("4008400109609".to_string())),
        ("title", obj(vec![("headline", JsonValue::Str("Thing".to_string()))])),
        ("price", obj(vec![("price", JsonValue::Str("2.99".to_string()))])),
        ("images", JsonValue::Arr(vec![])),
    ]);
    assert_eq!(parse(&payload).unwrap_err(), ParseError::InvalidIdentifierType);
}

#[test]
fn each_missing_field_is_named() {
    let without = |skip: &str| -> JsonValue {
        let full = vec![
            ("gtin", JsonValue::Num("1".to_string())),
            ("title", obj(vec![("headline", JsonValue::Str("T".to_string()))])),
            ("price", obj(vec![("price", JsonValue::Str("1.00".to_string()))])),
            ("images", JsonValue::Arr(vec![])),
        ];
        obj(full.into_iter().filter(|(k, _)| *k != skip).collect())
    };
    assert_eq!(
        parse(&without("gtin")).unwrap_err(),
        ParseError::MissingField(FieldName::Gtin)
    );
    assert_eq!(
        parse(&without("title")).unwrap_err(),
        ParseError::MissingField(FieldName::Title)
    );
    assert_eq!(
        parse(&without("price")).unwrap_err(),
        ParseError::MissingField(FieldName::Price)
    );
    assert_eq!(
        parse(&without("images")).unwrap_err(),
        ParseError::MissingField(FieldName::Images)
    );
}

#[test]
fn missing_headline_and_inner_price_are_named() {
    let payload = obj(vec![
        ("gtin", JsonValue::Num("1".to_string())),
        ("title", obj(vec![("other", JsonValue::Null)])),
        ("price", obj(vec![("price", JsonValue::Str("1.00".to_string()))])),
        ("images", JsonValue::Arr(vec![])),
    ]);
    assert_eq!(
        parse(&payload).unwrap_err(),
        ParseError::MissingField(FieldName::Headline)
    );
    let payload = obj(vec![
        ("gtin", JsonValue::Num("1".to_string())),
        ("title", obj(vec![("headline", JsonValue::Str("T".to_string()))])),
        ("price", obj(vec![("other", JsonValue::Null)])),
        ("images", JsonValue::Arr(vec![])),
    ]);
    assert_eq!(
        parse(&payload).unwrap_err(),
        ParseError::MissingField(FieldName::PriceValue)
    );
}

#[test]
fn image_reference_is_quote_stripped() {
    let payload = obj(vec![
        ("gtin", JsonValue::Num("1".to_string())),
        ("title", obj(vec![("headline", JsonValue::Str("T".to_string()))])),
        ("price", obj(vec![("price", JsonValue::Str("1.00".to_string()))])),
        (
            "images",
            JsonValue::Arr(vec![obj(vec![(
                "src",
                JsonValue::Str("\"http://x/y.jpg\"".to_string()),
            )])]),
        ),
    ]);
    let record = parse(&payload).unwrap();
    assert_eq!(record.image_reference.as_deref(), Some("http://x/y.jpg"));
}

#[test]
fn first_image_without_string_src_gives_no_reference() {
    let payload = obj(vec![
        ("gtin", JsonValue::Num("1".to_string())),
        ("title", obj(vec![("headline", JsonValue::Str("T".to_string()))])),
        ("price", obj(vec![("price", JsonValue::Str("1.00".to_string()))])),
        ("images", JsonValue::Arr(vec![obj(vec![("alt", JsonValue::Null)])])),
    ]);
    assert_eq!(parse(&payload).unwrap().image_reference, None);
}

#[test]
fn non_array_images_field_is_unexpected_shape() {
    let payload = obj(vec![
        ("gtin", JsonValue::Num("1".to_string())),
        ("title", obj(vec![("headline", JsonValue::Str("T".to_string()))])),
        ("price", obj(vec![("price", JsonValue::Str("1.00".to_string()))])),
        ("images", JsonValue::Str("none".to_string())),
    ]);
    assert_eq!(parse(&payload).unwrap_err(), ParseError::UnexpectedShape);
}

#[test]
fn price_strings_parse_to_cents() {
    assert_eq!(parse_price_cents("2.99"), 299);
    assert_eq!(parse_price_cents("1.50"), 150);
    assert_eq!(parse_price_cents("3"), 300);
    assert_eq!(parse_price_cents("0.5"), 50);
    assert_eq!(parse_price_cents("007"), 700);
    assert_eq!(parse_price_cents("999999999999"), 0);
    assert_eq!(parse_price_cents("9999999999.99"), 999999999999);
}

#[test]
fn malformed_price_strings_are_zero() {
    assert_eq!(parse_price_cents(""), 0);
    assert_eq!(parse_price_cents("N/A"), 0);
    assert_eq!(parse_price_cents("."), 0);
    assert_eq!(parse_price_cents("2."), 0);
    assert_eq!(parse_price_cents(".5"), 0);
    assert_eq!(parse_price_cents("2.999"), 0);
    assert_eq!(parse_price_cents("1,50"), 0);
    assert_eq!(parse_price_cents("-2.99"), 0);
    assert_eq!(parse_price_cents("2.9a"), 0);
}

#[test]
fn strip_quotes_removes_every_double_quote() {
    assert_eq!(strip_quotes_exec("\"http://x\""), "http://x");
    assert_eq!(strip_quotes_exec("a\"b\"c"), "abc");
    assert_eq!(strip_quotes_exec("plain"), "plain");
    assert_eq!(strip_quotes_exec(""), "");
}
