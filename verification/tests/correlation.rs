use goose::correlation::{argument_key, correlation_key, key_of_digest};
use goose::json::{order_texts, sort_value, Json, TextOrder};

fn text(s: &str) -> Json {
    Json::Text(s.to_string())
}

fn object(members: Vec<(&str, Json)>) -> Json {
    Json::Object(members.into_iter().map(|(k, v)| (k.to_string(), v)).collect())
}

fn parse(json: &str) -> serde_json::Value {
    serde_json::from_str(json).unwrap()
}

#[test]
fn correlation_key_is_stable() {
    let args = parse(
        r#"{
            "instructions": "do the thing",
            "source": "my-recipe",
            "parameters": {"env": "prod"}
        }"#,
    );
    let key1 = correlation_key(&args);
    let args2 = parse(
        r#"{
            "parameters": {"env": "prod"},
            "instructions": "do the thing",
            "source": "my-recipe"
        }"#,
    );
    let key2 = correlation_key(&args2);
    assert_eq!(key1, key2, "key must be order-insensitive");
    assert_eq!(key1.len(), 16, "key must be 16 hex chars");
    assert_eq!(key1, "4eaa0a9cea668cad");
}

#[test]
fn correlation_key_ignores_extra_fields() {
    let base = parse(r#"{ "instructions": "hello" }"#);
    let extra = parse(
        r#"{
            "instructions": "hello",
            "extensions": ["developer"],
            "provider": "anthropic",
            "async": false
        }"#,
    );
    assert_eq!(
        correlation_key(&base),
        correlation_key(&extra),
        "only source/instructions/parameters affect the key"
    );
}

#[test]
fn correlation_key_with_parameters_present_and_absent() {
    let with_params = parse(r#"{ "instructions": "task", "parameters": {"k": "v"} }"#);
    let without_params = parse(r#"{ "instructions": "task" }"#);
    assert_ne!(
        correlation_key(&with_params),
        correlation_key(&without_params)
    );
}

#[test]
fn correlation_key_skips_null_parameters() {
    let explicit_null = parse(r#"{ "instructions": "task", "parameters": null }"#);
    let absent = parse(r#"{ "instructions": "task" }"#);
    assert_eq!(correlation_key(&explicit_null), correlation_key(&absent));
    assert_eq!(correlation_key(&absent), "e4becd6795e13f05");
}

#[test]
fn correlation_key_reader_writer_agreement() {
    let writer_args = parse(
        r#"{
            "source": "file-locator",
            "instructions": "find all Rust files",
            "parameters": {"z_key": "last", "a_key": "first"}
        }"#,
    );
    let reader_args = parse(
        r#"{
            "instructions": "find all Rust files",
            "parameters": {"a_key": "first", "z_key": "last"},
            "source": "file-locator",
            "async": true,
            "extensions": ["developer"]
        }"#,
    );
    assert_eq!(
        correlation_key(&writer_args),
        correlation_key(&reader_args),
        "writer-side and reader-side must produce the same key"
    );
}

#[test]
fn nested_values_are_taken_over_whole() {
    let args = parse(r#"{"parameters": [{"b": [true, null, "x\"y"], "a": 1}]}"#);
    assert_eq!(correlation_key(&args), "19b399e11d8a95ba");
    let args = parse(r#"{"parameters": {"é": "ß", "a": 1.5, "A": -2}}"#);
    assert_eq!(correlation_key(&args), "1f94550ecb457c84");
    assert_eq!(correlation_key(&parse("7")), "44136fa355b3678a");
}

#[test]
fn arguments_that_are_no_object_have_the_key_of_nothing() {
    for args in [Json::Null, Json::Bool(true), text("x"), Json::Array(vec![]), object(vec![])] {
        assert_eq!(argument_key(&args), "44136fa355b3678a");
    }
}

#[test]
fn every_kind_of_value_counts() {
    let args = object(vec![(
        "parameters",
        Json::Array(vec![object(vec![
            ("b", Json::Array(vec![Json::Bool(true), Json::Null, text("x\"y")])),
            ("a", Json::Number(serde_json::Number::from(1u64))),
        ])]),
    )]);
    assert_eq!(argument_key(&args), "19b399e11d8a95ba");
    let args = object(vec![(
        "parameters",
        object(vec![
            ("é", text("ß")),
            ("a", Json::Number(serde_json::Number::from_f64(1.5).unwrap())),
            ("A", Json::Number(serde_json::Number::from(-2i64))),
        ]),
    )]);
    assert_eq!(argument_key(&args), "1f94550ecb457c84");
}

#[test]
fn the_last_of_two_members_with_one_name_counts() {
    let twice = object(vec![("instructions", text("old")), ("instructions", text("task"))]);
    let once = object(vec![("instructions", text("task"))]);
    assert_eq!(argument_key(&twice), argument_key(&once));
}

#[test]
fn sorting_orders_every_object() {
    let value = Json::Array(vec![object(vec![
        ("b", Json::Null),
        ("a", object(vec![("y", Json::Bool(true)), ("x", Json::Bool(false))])),
    ])]);
    match sort_value(&value) {
        Json::Array(items) => match &items[0] {
            Json::Object(members) => {
                assert_eq!(members[0].0, "a");
                assert_eq!(members[1].0, "b");
                match &members[0].1 {
                    Json::Object(inner) => {
                        assert_eq!(inner[0].0, "x");
                        assert_eq!(inner[1].0, "y");
                        assert!(matches!(inner[0].1, Json::Bool(false)));
                    }
                    _ => panic!("expected an object"),
                }
            }
            _ => panic!("expected an object"),
        },
        _ => panic!("expected an array"),
    }
}

#[test]
fn a_key_is_the_beginning_of_a_digest() {
    let digest = vec![0x00, 0x0f, 0xa0, 0xff, 0x12, 0x9a, 0x7b, 0xc8, 0xde];
    assert_eq!(key_of_digest(&digest), "000fa0ff129a7bc8");
}

#[test]
fn texts_are_ordered_by_their_characters() {
    assert!(matches!(order_texts("a", "b"), TextOrder::Before));
    assert!(matches!(order_texts("b", "a"), TextOrder::After));
    assert!(matches!(order_texts("a", "ab"), TextOrder::Before));
    assert!(matches!(order_texts("", ""), TextOrder::Same));
    assert!(matches!(order_texts("Z", "a"), TextOrder::Before));
    assert!(matches!(order_texts("é", "z"), TextOrder::After));
}
