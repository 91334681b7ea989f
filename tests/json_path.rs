use webconsole::json::{get_json_path, set_json_path, JsonValue, Member, PathError};

fn num(n: &str) -> JsonValue {
    JsonValue::Number(n.to_string())
}

fn text(s: &str) -> JsonValue {
    JsonValue::String(s.to_string())
}

fn obj(entries: Vec<(&str, JsonValue)>) -> JsonValue {
    JsonValue::Object(
        entries
            .into_iter()
            .map(|(k, v)| Member { key: k.to_string(), value: v })
            .collect(),
    )
}

fn nested() -> JsonValue {
    obj(vec![
        ("x", num("1")),
        ("spec", obj(vec![("replicas", num("3")), ("image", text("nginx"))])),
        ("tags", JsonValue::Array(vec![text("a"), text("b")])),
    ])
}

fn number_at(v: &JsonValue, path: &str) -> Option<String> {
    match get_json_path(v, path) {
        Some(JsonValue::Number(n)) => Some(n.clone()),
        _ => None,
    }
}

#[test]
fn get_reads_nested_values() {
    let v = nested();
    assert_eq!(number_at(&v, "x"), Some("1".to_string()));
    assert_eq!(number_at(&v, "spec.replicas"), Some("3".to_string()));
    match get_json_path(&v, "spec.image") {
        Some(JsonValue::String(s)) => assert_eq!(s, "nginx"),
        other => panic!("unexpected {:?}", other),
    }
}

#[test]
fn get_skips_empty_segments() {
    let v = nested();
    assert!(matches!(get_json_path(&v, ""), Some(JsonValue::Object(_))));
    assert!(matches!(get_json_path(&v, "."), Some(JsonValue::Object(_))));
    assert_eq!(number_at(&v, ".spec..replicas."), Some("3".to_string()));
}

#[test]
fn get_is_absent_on_missing_or_non_object() {
    let v = nested();
    assert!(get_json_path(&v, "nope").is_none());
    assert!(get_json_path(&v, "x.y").is_none());
    assert!(get_json_path(&v, "tags.0").is_none());
    assert!(get_json_path(&v, "spec.nope").is_none());
}

#[test]
fn set_replaces_existing_leaf() {
    let mut v = nested();
    assert!(set_json_path(&mut v, "spec.replicas", num("5")).is_ok());
    assert_eq!(number_at(&v, "spec.replicas"), Some("5".to_string()));
    assert_eq!(number_at(&v, "x"), Some("1".to_string()));
    match get_json_path(&v, "spec.image") {
        Some(JsonValue::String(s)) => assert_eq!(s, "nginx"),
        other => panic!("unexpected {:?}", other),
    }
}

#[test]
fn set_then_get_returns_value() {
    let mut v = nested();
    set_json_path(&mut v, "spec", text("gone")).unwrap();
    match get_json_path(&v, "spec") {
        Some(JsonValue::String(s)) => assert_eq!(s, "gone"),
        other => panic!("unexpected {:?}", other),
    }
}

#[test]
fn set_on_empty_path_replaces_root() {
    let mut v = nested();
    set_json_path(&mut v, "", num("7")).unwrap();
    assert_eq!(number_at(&v, ""), Some("7".to_string()));
}

#[test]
fn set_missing_segment_fails_without_change() {
    let mut v = nested();
    let before = format!("{:?}", v);
    match set_json_path(&mut v, "spec.nope", num("1")) {
        Err(PathError::Missing { segment }) => assert_eq!(segment, "nope"),
        other => panic!("unexpected {:?}", other),
    }
    assert_eq!(format!("{:?}", v), before);
    assert!(get_json_path(&v, "spec.nope").is_none());
}

#[test]
fn set_through_non_object_fails_without_change() {
    let mut v = nested();
    let before = format!("{:?}", v);
    match set_json_path(&mut v, "x.y", num("1")) {
        Err(PathError::NotAnObject { path }) => assert_eq!(path, "x.y"),
        other => panic!("unexpected {:?}", other),
    }
    assert_eq!(format!("{:?}", v), before);
    assert!(get_json_path(&v, "x.y").is_none());
}

#[test]
fn set_does_not_create_keys() {
    let mut v = obj(vec![]);
    assert!(set_json_path(&mut v, "a", num("1")).is_err());
    assert!(get_json_path(&v, "a").is_none());
}

#[test]
fn lookup_takes_first_entry_of_a_key() {
    let mut v = obj(vec![("k", num("1")), ("k", num("2"))]);
    assert_eq!(number_at(&v, "k"), Some("1".to_string()));
    set_json_path(&mut v, "k", num("9")).unwrap();
    assert_eq!(format!("{:?}", v), format!("{:?}", obj(vec![("k", num("9")), ("k", num("2"))])));
}

#[test]
fn duplicate_is_deep_copy() {
    let v = nested();
    let mut w = v.duplicate();
    assert_eq!(format!("{:?}", v), format!("{:?}", w));
    set_json_path(&mut w, "spec.replicas", num("0")).unwrap();
    assert_eq!(number_at(&v, "spec.replicas"), Some("3".to_string()));
}

#[test]
fn kind_names() {
    assert_eq!(JsonValue::Null.kind_name(), "Null");
    assert_eq!(JsonValue::Bool(true).kind_name(), "Bool");
    assert_eq!(num("1").kind_name(), "Number");
    assert_eq!(text("a").kind_name(), "String");
    assert_eq!(JsonValue::Array(vec![]).kind_name(), "Array");
    assert_eq!(obj(vec![]).kind_name(), "Object");
    assert!(num("1").is_scalar());
    assert!(!JsonValue::Null.is_scalar());
    assert!(!obj(vec![]).is_scalar());
}

#[test]
fn member_takes_key_whole() {
    let v = obj(vec![("a.b", num("1")), ("a", obj(vec![("b", num("2"))]))]);
    match v.member("a.b") {
        Some(JsonValue::Number(n)) => assert_eq!(n, "1"),
        other => panic!("unexpected {:?}", other),
    }
    assert_eq!(number_at(&v, "a.b"), Some("2".to_string()));
    assert!(v.member("c").is_none());
    assert!(num("1").member("a").is_none());
}
