use archive_org_redump_link_updater::json::{flatten, JsonNumber, JsonValue};

fn s(text: &str) -> JsonValue {
    JsonValue::String(text.to_string())
}

fn obj(fields: Vec<(&str, JsonValue)>) -> JsonValue {
    JsonValue::Object(fields.into_iter().map(|(k, v)| (k.to_string(), v)).collect())
}

fn num(n: u64) -> JsonValue {
    JsonValue::Number(JsonNumber { text: n.to_string(), unsigned: Some(n) })
}

#[test]
fn get_finds_object_fields_only() {
    let v = obj(vec![("a", s("x")), ("b", JsonValue::Bool(true))]);
    assert_eq!(v.get("a").and_then(|j| j.as_str()).map(|s| s.as_str()), Some("x"));
    assert_eq!(v.get("b").and_then(|j| j.as_bool()), Some(true));
    assert!(v.get("c").is_none());
    assert!(JsonValue::Array(vec![s("a")]).get("a").is_none());
    assert!(s("a").get("a").is_none());
}

#[test]
fn as_u64_reads_unsigned_numbers() {
    assert_eq!(num(42).as_u64(), Some(42));
    let negative = JsonValue::Number(JsonNumber { text: "-1".to_string(), unsigned: None });
    assert_eq!(negative.as_u64(), None);
    assert_eq!(s("42").as_u64(), None);
}

#[test]
fn flatten_renders_strings_and_lists() {
    assert_eq!(flatten(Some(&s("one"))), "one");
    let list = JsonValue::Array(vec![s("a"), num(3), s("b"), JsonValue::Null, s("c")]);
    assert_eq!(flatten(Some(&list)), "a\nb\nc");
    assert_eq!(flatten(Some(&JsonValue::Array(vec![]))), "");
    assert_eq!(flatten(Some(&num(1))), "");
    assert_eq!(flatten(None), "");
}

#[test]
fn copy_gives_an_equal_value() {
    let v = obj(vec![
        ("list", JsonValue::Array(vec![s("a"), num(7), JsonValue::Null])),
        ("flag", JsonValue::Bool(false)),
    ]);
    assert_eq!(format!("{:?}", v.copy()), format!("{:?}", v));
}
