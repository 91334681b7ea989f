use webconsole::api::{
    choose_locale, infer_host, snapshot_lines, Client, DecodeError, Object, WatchListEvent,
    WatchSingleEvent,
};
use webconsole::json::{JsonValue, Member};

fn text(s: &str) -> JsonValue {
    JsonValue::String(s.to_string())
}

fn num(n: &str) -> JsonValue {
    JsonValue::Number(n.to_string())
}

fn obj(entries: Vec<(&str, JsonValue)>) -> JsonValue {
    JsonValue::Object(
        entries
            .into_iter()
            .map(|(k, v)| Member { key: k.to_string(), value: v })
            .collect(),
    )
}

#[test]
fn decodes_clear() {
    let e = WatchListEvent::from_json(obj(vec![("event", text("clear"))])).unwrap();
    assert!(matches!(e, WatchListEvent::Clear));
}

#[test]
fn decodes_added_with_flattened_fields() {
    let msg = obj(vec![
        ("event", text("added")),
        ("item", obj(vec![("_name", text("pod-1")), ("x", num("1")), ("y", text("b"))])),
    ]);
    match WatchListEvent::from_json(msg).unwrap() {
        WatchListEvent::Added { item } => {
            assert_eq!(item.name, "pod-1");
            assert_eq!(
                format!("{:?}", item.fields),
                format!("{:?}", obj(vec![("x", num("1")), ("y", text("b"))]))
            );
        },
        other => panic!("unexpected {:?}", other),
    }
}

#[test]
fn decodes_removed_and_field_update() {
    match WatchListEvent::from_json(obj(vec![("event", text("removed")), ("name", text("a"))])).unwrap() {
        WatchListEvent::Removed { name } => assert_eq!(name, "a"),
        other => panic!("unexpected {:?}", other),
    }
    let msg = obj(vec![
        ("value", num("3")),
        ("event", text("fieldUpdate")),
        ("name", text("a")),
        ("field", text("spec.n")),
    ]);
    match WatchListEvent::from_json(msg).unwrap() {
        WatchListEvent::FieldUpdate { name, field, value } => {
            assert_eq!(name, "a");
            assert_eq!(field, "spec.n");
            assert_eq!(format!("{:?}", value), format!("{:?}", num("3")));
        },
        other => panic!("unexpected {:?}", other),
    }
}

#[test]
fn decode_errors() {
    assert!(matches!(WatchListEvent::from_json(text("clear")), Err(DecodeError::NotAnObject)));
    match WatchListEvent::from_json(obj(vec![])) {
        Err(DecodeError::MissingField { field }) => assert_eq!(field, "event"),
        other => panic!("unexpected {:?}", other),
    }
    match WatchListEvent::from_json(obj(vec![("event", num("1"))])) {
        Err(DecodeError::WrongType { field }) => assert_eq!(field, "event"),
        other => panic!("unexpected {:?}", other),
    }
    match WatchListEvent::from_json(obj(vec![("event", text("Clear"))])) {
        Err(DecodeError::UnknownEvent { tag }) => assert_eq!(tag, "Clear"),
        other => panic!("unexpected {:?}", other),
    }
    match WatchListEvent::from_json(obj(vec![("event", text("removed"))])) {
        Err(DecodeError::MissingField { field }) => assert_eq!(field, "name"),
        other => panic!("unexpected {:?}", other),
    }
    match WatchListEvent::from_json(obj(vec![
        ("event", text("fieldUpdate")),
        ("name", text("a")),
        ("field", text("x")),
    ])) {
        Err(DecodeError::MissingField { field }) => assert_eq!(field, "value"),
        other => panic!("unexpected {:?}", other),
    }
    match WatchListEvent::from_json(obj(vec![("event", text("added")), ("item", num("1"))])) {
        Err(DecodeError::NotAnObject) => {},
        other => panic!("unexpected {:?}", other),
    }
    match WatchListEvent::from_json(obj(vec![("event", text("added")), ("item", obj(vec![("x", num("1"))]))])) {
        Err(DecodeError::MissingField { field }) => assert_eq!(field, "_name"),
        other => panic!("unexpected {:?}", other),
    }
}

#[test]
fn decodes_single_update() {
    let msg = obj(vec![("event", text("update")), ("field", text("a.b")), ("value", JsonValue::Bool(true))]);
    match WatchSingleEvent::from_json(msg).unwrap() {
        WatchSingleEvent::Update { field, value } => {
            assert_eq!(field, "a.b");
            assert!(matches!(value, JsonValue::Bool(true)));
        },
    }
    match WatchSingleEvent::from_json(obj(vec![("event", text("added"))])) {
        Err(DecodeError::UnknownEvent { tag }) => assert_eq!(tag, "added"),
        other => panic!("unexpected {:?}", other),
    }
}

#[test]
fn decodes_snapshot_object() {
    let o = Object::from_json(obj(vec![("a", num("1")), ("_name", text("n"))])).unwrap();
    assert_eq!(o.name, "n");
    assert_eq!(format!("{:?}", o.fields), format!("{:?}", obj(vec![("a", num("1"))])));
    match Object::from_json(obj(vec![("_name", num("1"))])) {
        Err(DecodeError::WrongType { field }) => assert_eq!(field, "_name"),
        other => panic!("unexpected {:?}", other),
    }
}

#[test]
fn snapshot_lines_skip_empty() {
    assert_eq!(
        snapshot_lines("{\"_name\":\"a\"}\n\n{\"_name\":\"b\"}\n"),
        vec!["{\"_name\":\"a\"}".to_string(), "{\"_name\":\"b\"}".to_string()]
    );
    assert!(snapshot_lines("").is_empty());
    assert!(snapshot_lines("\n\n").is_empty());
}

#[test]
fn urls() {
    let c = Client { host: "http://h:1".to_string() };
    assert_eq!(c.url("discovery"), "http://h:1/discovery");
    assert_eq!(c.discovery_url(), "http://h:1/discovery");
    assert_eq!(c.locales_url(), "http://h:1/locales");
    assert_eq!(c.ftl_url("en-US"), "http://h:1/en-US.ftl");
    assert_eq!(c.list_url("core", "pods"), "http://h:1/core/pods");
    assert_eq!(c.watch_list_url("core", "pods"), "http://h:1/core/pods?watch=true");
    assert_eq!(c.watch_single_url("core", "pods", "p1"), "http://h:1/core/pods/p1?watch=true");
}

#[test]
fn host_inference_order() {
    assert_eq!(infer_host(Some("http://q".to_string()), Some("http://s".to_string())), "http://q");
    assert_eq!(infer_host(None, Some("http://s".to_string())), "http://s");
    assert_eq!(infer_host(None, None), "http://localhost:14875");
}

#[test]
fn locale_choice() {
    let av = vec!["en".to_string(), "zh".to_string()];
    assert_eq!(choose_locale(&av, &vec!["fr".to_string(), "zh".to_string(), "en".to_string()]), Some("zh".to_string()));
    assert_eq!(choose_locale(&av, &vec!["fr".to_string()]), Some("en".to_string()));
    assert_eq!(choose_locale(&av, &vec![]), Some("en".to_string()));
    assert_eq!(choose_locale(&vec![], &vec!["en".to_string()]), None);
}
