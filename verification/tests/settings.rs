use agent_stream_app::config_tree::{ConfigTree, Number};
use agent_stream_app::error::StoreError;
use agent_stream_app::settings::{settings_document, AutostartChange, CoreSettings};

fn text(s: &str) -> ConfigTree {
    ConfigTree::Text(s.to_string())
}

fn obj(entries: Vec<(&str, ConfigTree)>) -> ConfigTree {
    ConfigTree::Object(entries.into_iter().map(|(k, v)| (k.to_string(), v)).collect())
}

fn bindings(pairs: Vec<(&str, &str)>) -> Vec<(String, String)> {
    pairs.into_iter().map(|(k, v)| (k.to_string(), v.to_string())).collect()
}

fn default_bindings() -> Vec<(String, String)> {
    bindings(vec![
        ("global_shortcut", ""),
        ("fullscreen", "F11"),
        ("screenshot_only", " "),
        ("search", "Ctrl+K, Command+K"),
    ])
}

#[test]
fn built_in_settings() {
    let d = CoreSettings::defaults(false);
    assert_eq!(d.autostart, Some(false));
    assert_eq!(d.shortcut_keys, Some(default_bindings()));
}

#[test]
fn built_in_settings_leave_fullscreen_to_the_system() {
    let d = CoreSettings::defaults(true);
    assert_eq!(
        d.shortcut_keys,
        Some(bindings(vec![
            ("global_shortcut", ""),
            ("fullscreen", ""),
            ("screenshot_only", " "),
            ("search", "Ctrl+K, Command+K"),
        ]))
    );
}

#[test]
fn stored_autostart_overrides_and_shortcuts_stay_built_in() {
    let file = obj(vec![("core", obj(vec![("autostart", ConfigTree::Bool(true))])), ("agents", obj(vec![]))]);
    let loaded = CoreSettings::load(file.get("core"), false);
    assert_eq!(loaded.autostart, Some(true));
    assert_eq!(loaded.shortcut_keys, Some(default_bindings()));
}

#[test]
fn nothing_stored_gives_the_built_in_settings() {
    assert_eq!(CoreSettings::load(None, false), CoreSettings::defaults(false));
    let file = obj(vec![("agents", obj(vec![]))]);
    assert_eq!(CoreSettings::load(file.get("core"), true), CoreSettings::defaults(true));
}

#[test]
fn stored_shortcut_is_merged_into_the_built_in_ones() {
    let stored = obj(vec![("shortcut_keys", obj(vec![("search", text("Ctrl+F")), ("extra", text("F2")), ("fullscreen", ConfigTree::Null)]))]);
    let loaded = CoreSettings::load(Some(&stored), false);
    assert_eq!(loaded.autostart, Some(false));
    assert_eq!(
        loaded.shortcut_keys,
        Some(bindings(vec![
            ("global_shortcut", ""),
            ("screenshot_only", " "),
            ("search", "Ctrl+F"),
            ("extra", "F2"),
        ]))
    );
}

#[test]
fn stored_null_fields_unset_them() {
    let stored = obj(vec![("autostart", ConfigTree::Null), ("shortcut_keys", ConfigTree::Null)]);
    let loaded = CoreSettings::load(Some(&stored), false);
    assert_eq!(loaded, CoreSettings { autostart: None, shortcut_keys: None });
}

#[test]
fn stored_value_of_the_wrong_shape_falls_back() {
    let d = CoreSettings::defaults(false);
    assert_eq!(CoreSettings::load(Some(&ConfigTree::Null), false), d);
    assert_eq!(CoreSettings::load(Some(&text("x")), false), d);
    assert_eq!(CoreSettings::load(Some(&obj(vec![("autostart", text("yes"))])), false), d);
    let bad_keys = obj(vec![("shortcut_keys", obj(vec![("search", ConfigTree::Number(Number::PosInt(1)))]))]);
    assert_eq!(CoreSettings::load(Some(&bad_keys), false), d);
    assert_eq!(CoreSettings::load(Some(&obj(vec![("shortcut_keys", ConfigTree::Array(vec![]))])), false), d);
}

#[test]
fn unknown_members_are_passed_over() {
    let stored = obj(vec![("theme", text("dark")), ("autostart", ConfigTree::Bool(true))]);
    let loaded = CoreSettings::load(Some(&stored), false);
    assert_eq!(loaded.autostart, Some(true));
    assert_eq!(loaded.shortcut_keys, Some(default_bindings()));
}

#[test]
fn array_of_two_stands_for_settings() {
    let stored = ConfigTree::Array(vec![ConfigTree::Bool(true), obj(vec![("a", text("b"))])]);
    assert_eq!(
        CoreSettings::from_tree(&stored),
        Some(CoreSettings { autostart: Some(true), shortcut_keys: Some(bindings(vec![("a", "b")])) })
    );
    assert_eq!(CoreSettings::from_tree(&ConfigTree::Array(vec![ConfigTree::Bool(true)])), None);
    assert_eq!(
        CoreSettings::from_tree(&ConfigTree::Array(vec![ConfigTree::Null, ConfigTree::Null, ConfigTree::Null])),
        None
    );
}

#[test]
fn to_tree_writes_both_members() {
    let s = CoreSettings { autostart: Some(true), shortcut_keys: Some(bindings(vec![("a", "b")])) };
    assert_eq!(
        s.to_tree(),
        obj(vec![("autostart", ConfigTree::Bool(true)), ("shortcut_keys", obj(vec![("a", text("b"))]))])
    );
    let unset = CoreSettings { autostart: None, shortcut_keys: None };
    assert_eq!(unset.to_tree(), obj(vec![("autostart", ConfigTree::Null), ("shortcut_keys", ConfigTree::Null)]));
}

#[test]
fn from_tree_reads_back_what_to_tree_wrote() {
    for s in [
        CoreSettings::defaults(false),
        CoreSettings::defaults(true),
        CoreSettings { autostart: None, shortcut_keys: None },
        CoreSettings { autostart: Some(true), shortcut_keys: Some(vec![]) },
    ] {
        assert_eq!(CoreSettings::from_tree(&s.to_tree()), Some(s));
    }
}

#[test]
fn apply_null_changes_nothing() {
    let mut s = CoreSettings::defaults(false);
    assert_eq!(s.apply(&ConfigTree::Null), Ok(false));
    assert_eq!(s, CoreSettings::defaults(false));
}

#[test]
fn apply_object_merges() {
    let mut s = CoreSettings::defaults(false);
    let change = obj(vec![("autostart", ConfigTree::Bool(true)), ("shortcut_keys", obj(vec![("search", text("F3"))]))]);
    assert_eq!(s.apply(&change), Ok(true));
    assert_eq!(s.autostart, Some(true));
    assert_eq!(
        s.shortcut_keys,
        Some(bindings(vec![
            ("global_shortcut", ""),
            ("fullscreen", "F11"),
            ("screenshot_only", " "),
            ("search", "F3"),
        ]))
    );
}

#[test]
fn apply_refuses_other_shapes() {
    let mut s = CoreSettings::defaults(false);
    assert_eq!(s.apply(&text("x")), Err(StoreError::Parse("Invalid settings format".to_string())));
    assert_eq!(s.apply(&ConfigTree::Array(vec![])), Err(StoreError::Parse("Invalid settings format".to_string())));
    assert_eq!(s, CoreSettings::defaults(false));
}

#[test]
fn apply_refuses_a_result_that_is_no_settings() {
    let mut s = CoreSettings::defaults(false);
    let change = obj(vec![("autostart", text("on"))]);
    assert_eq!(s.apply(&change), Err(StoreError::Parse("Failed to deserialize new settings".to_string())));
    assert_eq!(s, CoreSettings::defaults(false));
}

#[test]
fn document_has_core_and_agents() {
    let s = CoreSettings { autostart: Some(false), shortcut_keys: None };
    let agents = obj(vec![("llm", obj(vec![("model", text("m"))]))]);
    assert_eq!(
        settings_document(&s, agents.clone()),
        obj(vec![
            ("core", obj(vec![("autostart", ConfigTree::Bool(false)), ("shortcut_keys", ConfigTree::Null)])),
            ("agents", agents),
        ])
    );
}

#[test]
fn autostart_follows_the_settings() {
    let on = CoreSettings { autostart: Some(true), shortcut_keys: None };
    let off = CoreSettings { autostart: Some(false), shortcut_keys: None };
    let unset = CoreSettings { autostart: None, shortcut_keys: None };
    assert_eq!(on.autostart_change(false), AutostartChange::Enable);
    assert_eq!(on.autostart_change(true), AutostartChange::Keep);
    assert_eq!(off.autostart_change(true), AutostartChange::Disable);
    assert_eq!(off.autostart_change(false), AutostartChange::Keep);
    assert_eq!(unset.autostart_change(true), AutostartChange::Disable);
    assert_eq!(unset.autostart_change(false), AutostartChange::Keep);
}

#[test]
fn global_shortcut_is_the_binding_unless_empty() {
    assert_eq!(CoreSettings::defaults(false).global_shortcut(), None);
    let bound = CoreSettings {
        autostart: None,
        shortcut_keys: Some(bindings(vec![("search", "F3"), ("global_shortcut", "Ctrl+Space")])),
    };
    assert_eq!(bound.global_shortcut(), Some(&"Ctrl+Space".to_string()));
    let other = CoreSettings { autostart: None, shortcut_keys: Some(bindings(vec![("search", "F3")])) };
    assert_eq!(other.global_shortcut(), None);
    assert_eq!(CoreSettings { autostart: None, shortcut_keys: None }.global_shortcut(), None);
}

#[test]
fn settings_with_an_action_bound_twice_are_not_well_formed() {
    assert!(CoreSettings::defaults(true).is_wf());
    assert!(CoreSettings { autostart: None, shortcut_keys: None }.is_wf());
    let twice = CoreSettings { autostart: None, shortcut_keys: Some(bindings(vec![("a", "1"), ("a", "2")])) };
    assert!(!twice.is_wf());
}
