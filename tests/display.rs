use webconsole::api::{
    Discovery, FieldDef, FieldType, Group, GroupKind, KnownFieldMetadata, KnownObjectMetadata, ObjectDef,
};
use webconsole::display::{
    default_hidden, field_matches_filter, set_field_visible, visible_fields, DisplayMode,
};
use webconsole::id_map::IdMap;

fn field(path: &str, priority: i32, hide: bool) -> FieldDef {
    FieldDef {
        path: path.to_string(),
        display_name: format!("label-{}", path),
        metadata: KnownFieldMetadata { display_priority: priority, hide_by_default: hide },
        ty: FieldType::String,
    }
}

#[test]
fn visible_fields_order_and_filter() {
    let fields = vec![field("b", 0, false), field("a", 0, false), field("z", 5, false), field("c", -1, true)];
    assert_eq!(visible_fields(&fields, &vec![]), vec![2, 1, 0, 3]);
    assert_eq!(visible_fields(&fields, &vec!["a".to_string(), "c".to_string()]), vec![2, 0]);
    assert!(visible_fields(&vec![], &vec![]).is_empty());
}

#[test]
fn visible_fields_ties_keep_definition_order() {
    let fields = vec![field("p", 1, false), field("p", 1, false)];
    assert_eq!(visible_fields(&fields, &vec![]), vec![0, 1]);
    assert!(visible_fields(&fields, &vec!["p".to_string()]).is_empty());
}

#[test]
fn default_hidden_and_toggling() {
    let fields = vec![field("a", 0, true), field("b", 0, false), field("c", 0, true)];
    let mut hidden = default_hidden(&fields);
    assert_eq!(hidden, vec!["a".to_string(), "c".to_string()]);
    set_field_visible(&mut hidden, "a".to_string(), true);
    assert_eq!(hidden, vec!["c".to_string()]);
    set_field_visible(&mut hidden, "b".to_string(), false);
    assert_eq!(hidden, vec!["c".to_string(), "b".to_string()]);
    set_field_visible(&mut hidden, "b".to_string(), false);
    assert_eq!(hidden, vec!["c".to_string(), "b".to_string()]);
    set_field_visible(&mut hidden, "x".to_string(), true);
    assert_eq!(hidden, vec!["c".to_string(), "b".to_string()]);
}

#[test]
fn filter_matching() {
    assert!(field_matches_filter("", "Name", "spec.name"));
    assert!(field_matches_filter("am", "Name", "x"));
    assert!(field_matches_filter("spec", "Name", "spec.name"));
    assert!(!field_matches_filter("zz", "Name", "spec.name"));
    assert!(!field_matches_filter("Names", "Name", "n"));
}

#[test]
fn display_modes() {
    assert_eq!(DisplayMode::variants(), vec![DisplayMode::Cards, DisplayMode::Table]);
    assert_eq!(DisplayMode::default(), DisplayMode::Cards);
    assert_eq!(DisplayMode::Cards.icon(), "mdi-view-comfy");
    assert_eq!(DisplayMode::Table.icon(), "mdi-table");
    assert_eq!(DisplayMode::Cards.name(), "base-display-card");
    assert_eq!(DisplayMode::Table.name(), "base-display-table");
}

fn def(group: &str, kind: &str, fields: Vec<FieldDef>) -> ObjectDef {
    ObjectDef {
        id: GroupKind { group: group.to_string(), kind: kind.to_string() },
        display_name: format!("{}-{}", group, kind),
        metadata: KnownObjectMetadata::default(),
        fields: IdMap::from_items(fields),
    }
}

#[test]
fn id_map_later_item_replaces_earlier() {
    let m = IdMap::from_items(vec![field("a", 1, false), field("b", 2, false), field("a", 3, false)]);
    let values: Vec<(String, i32)> =
        m.values().iter().map(|f| (f.path.clone(), f.metadata.display_priority)).collect();
    assert_eq!(values, vec![("a".to_string(), 3), ("b".to_string(), 2)]);
    assert_eq!(m.get(&vec!["b".to_string()]).unwrap().metadata.display_priority, 2);
    assert!(m.get(&vec!["c".to_string()]).is_none());
}

#[test]
fn discovery_finds_kind() {
    let groups = IdMap::from_items(vec![Group {
        id: "core".to_string(),
        display_name: "core-name".to_string(),
        display_priority: 1,
    }]);
    let apis = IdMap::from_items(vec![def("core", "pods", vec![field("x", 0, false)]), def("core", "nodes", vec![])]);
    let d = Discovery { groups, apis };
    let found = d.api("core", "pods").unwrap();
    assert_eq!(found.display_name, "core-pods");
    assert_eq!(found.fields.values().len(), 1);
    assert!(d.api("core", "services").is_none());
    assert!(d.api("pods", "core").is_none());
    assert!(!KnownObjectMetadata::default().hide_name);
    assert_eq!(KnownFieldMetadata::default().display_priority, 0);
}

#[test]
fn id_map_keeps_ids_ascending() {
    let m = IdMap::from_items(vec![field("b", 0, false), field("a", 0, false), field("c", 0, false), field("a.b", 0, false)]);
    let paths: Vec<String> = m.values().iter().map(|f| f.path.clone()).collect();
    assert_eq!(paths, vec!["a".to_string(), "a.b".to_string(), "b".to_string(), "c".to_string()]);

    let apis = IdMap::from_items(vec![
        def("core", "pods", vec![]),
        def("apps", "sets", vec![]),
        def("core", "nodes", vec![]),
        def("apps", "deployments", vec![]),
    ]);
    let ids: Vec<(String, String)> =
        apis.values().iter().map(|d| (d.id.group.clone(), d.id.kind.clone())).collect();
    assert_eq!(
        ids,
        vec![
            ("apps".to_string(), "deployments".to_string()),
            ("apps".to_string(), "sets".to_string()),
            ("core".to_string(), "nodes".to_string()),
            ("core".to_string(), "pods".to_string()),
        ]
    );
}

#[test]
fn id_map_insert_replaces_in_place() {
    let mut m = IdMap::from_items(vec![field("b", 1, false), field("d", 1, false)]);
    m.insert(field("c", 2, false));
    m.insert(field("b", 3, false));
    m.insert(field("a", 4, false));
    let values: Vec<(String, i32)> =
        m.values().iter().map(|f| (f.path.clone(), f.metadata.display_priority)).collect();
    assert_eq!(
        values,
        vec![("a".to_string(), 4), ("b".to_string(), 3), ("c".to_string(), 2), ("d".to_string(), 1)]
    );
}
