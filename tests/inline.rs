use webconsole::api::{CompoundSubfield, EnumOption, FieldType, GroupKind};
use webconsole::id_map::IdMap;
use webconsole::inline::{inline_for, Inline};
use webconsole::json::{JsonValue, Member};

fn num(n: &str) -> JsonValue {
    JsonValue::Number(n.to_string())
}

fn text(s: &str) -> JsonValue {
    JsonValue::String(s.to_string())
}

fn list(n: usize) -> JsonValue {
    JsonValue::Array((0..n).map(|i| num(&i.to_string())).collect())
}

fn int64(is_timestamp: bool) -> FieldType {
    FieldType::Int64 { is_timestamp, min: None, max: None }
}

fn show(ty: &FieldType, v: &JsonValue, nested: bool) -> String {
    format!("{:?}", inline_for(ty, v, nested))
}

#[test]
fn scalars_and_mismatches() {
    assert!(matches!(inline_for(&FieldType::String, &text("a"), false), Inline::Text));
    assert!(matches!(inline_for(&int64(false), &num("1"), false), Inline::Number));
    assert!(matches!(inline_for(&int64(true), &num("1"), false), Inline::Timestamp));
    let float = FieldType::Float64 { is_timestamp: false, min: Some("0.5".to_string()), max: None };
    assert!(matches!(inline_for(&float, &num("1.5"), false), Inline::Number));
    assert!(matches!(inline_for(&FieldType::Bool, &JsonValue::Bool(true), false), Inline::Checkbox(true)));
    assert_eq!(show(&FieldType::String, &num("1"), false), "Mismatch { expected: \"String\" }");
    assert_eq!(show(&int64(false), &text("1"), false), "Mismatch { expected: \"Number\" }");
    assert_eq!(show(&FieldType::Bool, &JsonValue::Null, false), "Mismatch { expected: \"Bool\" }");
    let object = FieldType::Object { gk: GroupKind { group: "g".to_string(), kind: "k".to_string() } };
    assert!(matches!(inline_for(&object, &text("n"), false), Inline::Link));
    assert_eq!(show(&object, &num("1"), false), "Mismatch { expected: \"String\" }");
}

#[test]
fn enum_options() {
    let options = IdMap::from_items(vec![
        EnumOption { id: "on".to_string(), i18n: "label-on".to_string() },
        EnumOption { id: "off".to_string(), i18n: "label-off".to_string() },
    ]);
    let ty = FieldType::Enum { options };
    // Options stand in ascending id order: "off" before "on".
    assert!(matches!(inline_for(&ty, &text("off"), false), Inline::Label(0)));
    assert!(matches!(inline_for(&ty, &text("on"), false), Inline::Label(1)));
    assert!(matches!(inline_for(&ty, &text("maybe"), false), Inline::InvalidOption));
    assert_eq!(show(&ty, &num("1"), false), "Mismatch { expected: \"String\" }");
}

#[test]
fn nullable_and_lists() {
    let nullable = FieldType::Nullable { item: Box::new(FieldType::String) };
    assert!(matches!(inline_for(&nullable, &JsonValue::Null, false), Inline::NullMark));
    assert!(matches!(inline_for(&nullable, &text("x"), false), Inline::Inner));
    let ty = FieldType::List { item: Box::new(int64(false)) };
    assert!(matches!(inline_for(&ty, &JsonValue::Null, false), Inline::EmptyList));
    assert!(matches!(inline_for(&ty, &list(0), false), Inline::EmptyList));
    assert!(matches!(inline_for(&ty, &list(2), false), Inline::Items { shown: 2, rest: 0 }));
    assert!(matches!(inline_for(&ty, &list(3), false), Inline::Items { shown: 3, rest: 0 }));
    assert!(matches!(inline_for(&ty, &list(5), false), Inline::Items { shown: 3, rest: 2 }));
    assert!(matches!(inline_for(&ty, &list(5), true), Inline::ItemCount(5)));
    assert_eq!(show(&ty, &text("x"), false), "Mismatch { expected: \"List\" }");
}

#[test]
fn compounds() {
    let ty = FieldType::Compound {
        fields: IdMap::from_items(vec![CompoundSubfield {
            key: "a".to_string(),
            name: "label-a".to_string(),
            ty: FieldType::String,
        }]),
    };
    let full = JsonValue::Object(vec![Member { key: "a".to_string(), value: text("x") }]);
    assert!(matches!(inline_for(&ty, &JsonValue::Null, false), Inline::EmptyCompound));
    assert!(matches!(inline_for(&ty, &list(0), false), Inline::EmptyCompound));
    assert!(matches!(inline_for(&ty, &JsonValue::Object(vec![]), false), Inline::EmptyCompound));
    assert!(matches!(inline_for(&ty, &full, false), Inline::Parts));
    assert!(matches!(inline_for(&ty, &full, true), Inline::Ellipsis));
    assert_eq!(show(&ty, &list(1), false), "Mismatch { expected: \"Compound\" }");
    assert_eq!(show(&ty, &num("1"), false), "Mismatch { expected: \"Compound\" }");
}
