use webconsole::api::{Object, WatchListEvent, WatchSingleEvent};
use webconsole::json::{JsonValue, Member};
use webconsole::watch::{ListWatch, ObjectWatch, Phase, Restart, Selector};

fn selector(group: &str, kind: &str) -> Selector {
    Selector { group: group.to_string(), kind: kind.to_string(), name: None }
}

fn added(name: &str, x: &str) -> Result<WatchListEvent, String> {
    Ok(WatchListEvent::Added {
        item: Object {
            name: name.to_string(),
            fields: JsonValue::Object(vec![Member {
                key: "x".to_string(),
                value: JsonValue::Number(x.to_string()),
            }]),
        },
    })
}

fn names(w: &ListWatch) -> Vec<String> {
    w.store().in_order(false).into_iter().map(|o| o.name.clone()).collect()
}

#[test]
fn first_select_opens_without_cancel() {
    let mut w = ListWatch::new();
    assert_eq!(w.select(selector("g", "k1")), Some(Restart { cancel: None, open: 1 }));
    assert_eq!(w.subscription().phase(), Phase::Starting);
    assert_eq!(w.subscription().token(), 1);
}

#[test]
fn same_selector_does_not_restart() {
    let mut w = ListWatch::new();
    w.select(selector("g", "k"));
    assert!(w.update(1, added("a", "1")));
    assert_eq!(w.select(selector("g", "k")), None);
    assert_eq!(names(&w), vec!["a".to_string()]);
}

#[test]
fn stale_events_never_reach_new_store() {
    let mut w = ListWatch::new();
    w.select(selector("g", "k1"));
    w.opened(1);
    assert!(w.update(1, added("old", "1")));
    assert_eq!(w.select(selector("g", "k2")), Some(Restart { cancel: Some(1), open: 2 }));
    assert!(names(&w).is_empty());
    assert!(w.update(2, added("new", "2")));
    assert!(!w.update(1, added("late", "3")));
    assert!(!w.update(1, Ok(WatchListEvent::Clear)));
    assert!(!w.update(1, Err("dropped".to_string())));
    assert_eq!(names(&w), vec!["new".to_string()]);
    assert!(w.subscription().error().is_none());
}

#[test]
fn switch_before_first_delivery_ignores_first_watch() {
    let mut w = ListWatch::new();
    assert_eq!(w.select(selector("g", "k1")), Some(Restart { cancel: None, open: 1 }));
    assert_eq!(w.select(selector("g", "k2")), Some(Restart { cancel: Some(1), open: 2 }));
    assert!(!w.update(1, added("from-k1", "1")));
    assert!(!w.update(1, added("from-k1-again", "2")));
    assert!(names(&w).is_empty());
    assert!(w.update(2, added("from-k2", "3")));
    assert_eq!(names(&w), vec!["from-k2".to_string()]);
}

#[test]
fn error_ends_subscription() {
    let mut w = ListWatch::new();
    w.select(selector("g", "k"));
    assert!(w.update(1, added("a", "1")));
    assert_eq!(w.subscription().phase(), Phase::Active);
    assert!(w.update(1, Err("connection dropped".to_string())));
    assert_eq!(w.subscription().phase(), Phase::Stopped);
    assert_eq!(w.subscription().error().unwrap(), "connection dropped");
    assert!(!w.update(1, added("b", "2")));
    assert_eq!(names(&w), vec!["a".to_string()]);
    // No retry for the same target; another target starts afresh, with
    // nothing to cancel since the ended subscription is gone already.
    assert_eq!(w.select(selector("g", "k")), None);
    assert_eq!(w.subscription().phase(), Phase::Stopped);
    assert_eq!(w.select(selector("g", "k2")), Some(Restart { cancel: None, open: 2 }));
    assert!(w.subscription().error().is_none());
    assert!(names(&w).is_empty());
}

#[test]
fn destroy_cancels_live_subscription() {
    let mut w = ListWatch::new();
    assert_eq!(w.destroy(), None);
    w.select(selector("g", "k"));
    w.opened(1);
    assert_eq!(w.subscription().phase(), Phase::Active);
    assert_eq!(w.destroy(), Some(1));
    assert_eq!(w.subscription().phase(), Phase::Idle);
    assert!(!w.update(1, added("a", "1")));
    assert_eq!(w.destroy(), None);
}

#[test]
fn opened_with_stale_token_changes_nothing() {
    let mut w = ListWatch::new();
    w.select(selector("g", "k1"));
    w.select(selector("g", "k2"));
    w.opened(1);
    assert_eq!(w.subscription().phase(), Phase::Starting);
    w.opened(2);
    assert_eq!(w.subscription().phase(), Phase::Active);
}

#[test]
fn object_watch_restarts_on_name_change() {
    let mut w = ObjectWatch::new();
    let sel = |name: &str| Selector {
        group: "g".to_string(),
        kind: "k".to_string(),
        name: Some(name.to_string()),
    };
    assert_eq!(w.select(sel("a")), Some(Restart { cancel: None, open: 1 }));
    let update = |v: &str| {
        Ok(WatchSingleEvent::Update { field: "n".to_string(), value: JsonValue::Number(v.to_string()) })
    };
    assert!(w.update(1, update("1")));
    assert!(w.fields().get("n").is_some());
    assert_eq!(w.select(sel("a")), None);
    assert_eq!(w.select(sel("b")), Some(Restart { cancel: Some(1), open: 2 }));
    assert!(w.fields().get("n").is_none());
    assert!(!w.update(1, update("2")));
    assert!(w.fields().get("n").is_none());
    assert!(w.update(2, update("3")));
    match w.fields().get("n") {
        Some(JsonValue::Number(n)) => assert_eq!(n, "3"),
        other => panic!("unexpected {:?}", other),
    }
    assert_eq!(w.destroy(), Some(2));
}

#[test]
fn selectors_compare_all_parts() {
    let a = Selector { group: "g".to_string(), kind: "k".to_string(), name: None };
    let b = Selector { group: "g".to_string(), kind: "k".to_string(), name: Some("n".to_string()) };
    let c = Selector { group: "g".to_string(), kind: "k".to_string(), name: None };
    assert!(!a.same_as(&b));
    assert!(a.same_as(&c));
    assert!(!a.same_as(&selector("g", "other")));
}
