use xtrace::json::{parse_json_text, JsonVal};
use xtrace::otlp::{
    as_json, get_prefixed_entries, get_string, get_string_array, parse_usage_details,
    OtelKeyValue, OtelValue,
};

fn kv(key: &str, v: OtelValue) -> OtelKeyValue {
    OtelKeyValue { key: key.to_string(), value: Some(v) }
}

#[test]
fn json_text_parses_objects_and_rejects_garbage() {
    let v = parse_json_text("{\"a\": 1, \"b\": \"x\"}").unwrap();
    match v.get("a") {
        Some(a) => assert_eq!(a.as_int(), Some(1)),
        None => panic!("missing member"),
    }
    match v.get("b") {
        Some(JsonVal::Str(s)) => assert_eq!(s, "x"),
        _ => panic!("wrong member"),
    }
    assert!(v.get("c").is_none());
    assert!(parse_json_text("{not json").is_none());
}

#[test]
fn attribute_values_become_json_losslessly() {
    match as_json(&OtelValue::Int("42".to_string())) {
        JsonVal::Int(n) => assert_eq!(n, 42),
        _ => panic!("integer text must promote"),
    }
    match as_json(&OtelValue::Int("99999999999999999999".to_string())) {
        JsonVal::Str(s) => assert_eq!(s, "99999999999999999999"),
        _ => panic!("oversized integer text must stay text"),
    }
    match as_json(&OtelValue::Double(Some("1.5".to_string()))) {
        JsonVal::Num(s) => assert_eq!(s, "1.5"),
        _ => panic!("finite double keeps its rendering"),
    }
    assert!(matches!(as_json(&OtelValue::Double(None)), JsonVal::Null));
    assert!(matches!(as_json(&OtelValue::Bool(true)), JsonVal::Bool(true)));
    match as_json(&OtelValue::Arr(vec![OtelValue::Bool(false), OtelValue::Int("7".to_string())])) {
        JsonVal::Arr(items) => {
            assert_eq!(items.len(), 2);
            assert!(matches!(items[0], JsonVal::Bool(false)));
            assert!(matches!(items[1], JsonVal::Int(7)));
        },
        _ => panic!("array must map element-wise"),
    }
}

#[test]
fn string_attribute_takes_the_first_string_valued_match() {
    let attrs = vec![
        kv("a", OtelValue::Bool(true)),
        kv("b", OtelValue::Str("one".to_string())),
        kv("b", OtelValue::Str("two".to_string())),
    ];
    assert_eq!(get_string(&attrs, "b"), Some("one".to_string()));
    assert_eq!(get_string(&attrs, "a"), None);
    assert_eq!(get_string(&attrs, "missing"), None);
    // a matching key with a non-string value is passed over
    let mixed = vec![
        kv("k", OtelValue::Int("7".to_string())),
        kv("k", OtelValue::Str("v".to_string())),
    ];
    assert_eq!(get_string(&mixed, "k"), Some("v".to_string()));
}

#[test]
fn string_arrays_drop_non_strings_and_keep_order() {
    let attrs = vec![kv(
        "tags",
        OtelValue::Arr(vec![
            OtelValue::Str("x".to_string()),
            OtelValue::Bool(true),
            OtelValue::Str("y".to_string()),
        ]),
    )];
    assert_eq!(
        get_string_array(&attrs, "tags"),
        Some(vec!["x".to_string(), "y".to_string()])
    );
    assert_eq!(get_string_array(&attrs, "absent"), None);
}

#[test]
fn prefixed_map_keeps_suffixes_in_insertion_order() {
    let attrs = vec![
        kv("m.a", OtelValue::Str("1".to_string())),
        kv("m.b", OtelValue::Int("2".to_string())),
        OtelKeyValue { key: "m.".to_string(), value: Some(OtelValue::Bool(true)) },
        kv("other", OtelValue::Bool(false)),
        kv("m.a", OtelValue::Str("3".to_string())),
    ];
    let entries = get_prefixed_entries(&attrs, "m.");
    assert_eq!(entries.len(), 2);
    assert_eq!(entries[0].0, "a");
    match &entries[0].1 {
        JsonVal::Str(s) => assert_eq!(s, "3"),
        _ => panic!("later writer overwrites in place"),
    }
    assert_eq!(entries[1].0, "b");
    assert!(matches!(entries[1].1, JsonVal::Int(2)));
}

#[test]
fn usage_details_project_token_fields() {
    let attrs = vec![kv(
        "langfuse.observation.usage_details",
        OtelValue::Str(
            "{\"promptTokens\":10,\"completionTokens\":20,\"totalTokens\":30}".to_string(),
        ),
    )];
    let (completion, prompt, total, usage) = parse_usage_details(&attrs);
    assert_eq!(completion, Some(20));
    assert_eq!(prompt, Some(10));
    assert_eq!(total, Some(30));
    let u = usage.unwrap();
    assert_eq!(u.get("input").unwrap().as_int(), Some(10));
    assert_eq!(u.get("output").unwrap().as_int(), Some(20));
    assert_eq!(u.get("total").unwrap().as_int(), Some(30));
}

#[test]
fn usage_details_absent_or_invalid_yield_nothing() {
    let none = parse_usage_details(&vec![]);
    assert!(none.0.is_none() && none.1.is_none() && none.2.is_none() && none.3.is_none());
    let bad = parse_usage_details(&vec![kv(
        "langfuse.observation.usage_details",
        OtelValue::Str("{broken".to_string()),
    )]);
    assert!(bad.3.is_none());
    let partial = parse_usage_details(&vec![kv(
        "langfuse.observation.usage_details",
        OtelValue::Str("{\"promptTokens\":5}".to_string()),
    )]);
    assert_eq!(partial.1, Some(5));
    assert_eq!(partial.0, None);
    let u = partial.3.unwrap();
    assert_eq!(u.get("output").unwrap().as_int(), Some(0));
}
