use agent_stream_app::config_tree::{ConfigTree, Number};
use agent_stream_app::global_config::{ComponentDefaults, GlobalConfigTable};

fn num(n: u64) -> ConfigTree {
    ConfigTree::Number(Number::PosInt(n))
}

fn text(s: &str) -> ConfigTree {
    ConfigTree::Text(s.to_string())
}

fn entries(list: Vec<(&str, ConfigTree)>) -> Vec<(String, ConfigTree)> {
    list.into_iter().map(|(k, v)| (k.to_string(), v)).collect()
}

fn obj(list: Vec<(&str, ConfigTree)>) -> ConfigTree {
    ConfigTree::Object(entries(list))
}

fn declares(name: &str, list: Vec<(&str, ConfigTree)>) -> ComponentDefaults {
    ComponentDefaults { name: name.to_string(), defaults: entries(list) }
}

#[test]
fn component_without_entry_gets_the_declared_defaults() {
    let mut table = GlobalConfigTable { entries: vec![] };
    let defs = vec![declares("llm", vec![("model", text("small")), ("retries", num(3))])];
    assert!(table.reconcile(&defs));
    assert_eq!(table.entries, entries(vec![("llm", obj(vec![("model", text("small")), ("retries", num(3))]))]));
}

#[test]
fn existing_values_are_never_overwritten() {
    let mut table = GlobalConfigTable {
        entries: entries(vec![("llm", obj(vec![("model", text("large")), ("legacy", num(1))]))]),
    };
    let defs = vec![declares("llm", vec![("model", text("small")), ("retries", num(3))])];
    assert!(table.reconcile(&defs));
    assert_eq!(
        table.entries,
        entries(vec![("llm", obj(vec![("model", text("large")), ("legacy", num(1)), ("retries", num(3))]))])
    );
}

#[test]
fn a_stored_null_counts_as_a_value() {
    let mut table = GlobalConfigTable { entries: entries(vec![("llm", obj(vec![("model", ConfigTree::Null)]))]) };
    let defs = vec![declares("llm", vec![("model", text("small"))])];
    assert!(!table.reconcile(&defs));
    assert_eq!(table.entries, entries(vec![("llm", obj(vec![("model", ConfigTree::Null)]))]));
}

#[test]
fn second_run_changes_nothing() {
    let mut table = GlobalConfigTable {
        entries: entries(vec![("db", obj(vec![("path", text("/tmp/x"))])), ("odd", num(7))]),
    };
    let defs = vec![
        declares("llm", vec![("model", text("small")), ("retries", num(3))]),
        declares("db", vec![("path", text("default")), ("cache", ConfigTree::Bool(true))]),
        declares("odd", vec![("k", num(1))]),
        declares("bare", vec![]),
    ];
    assert!(table.reconcile(&defs));
    let first = GlobalConfigTable { entries: table.entries.clone() };
    assert!(!table.reconcile(&defs));
    assert_eq!(table, first);
    assert_eq!(
        first.entries,
        entries(vec![
            ("db", obj(vec![("path", text("/tmp/x")), ("cache", ConfigTree::Bool(true))])),
            ("odd", num(7)),
            ("llm", obj(vec![("model", text("small")), ("retries", num(3))])),
            ("bare", obj(vec![])),
        ])
    );
}

#[test]
fn components_without_a_declaration_are_left_alone() {
    let mut table = GlobalConfigTable { entries: entries(vec![("gone", obj(vec![("k", num(1))]))]) };
    assert!(!table.reconcile(&vec![]));
    assert!(table.reconcile(&vec![declares("new", vec![("a", num(1))])]));
    assert_eq!(table.entries[0], ("gone".to_string(), obj(vec![("k", num(1))])));
}

#[test]
fn of_two_declarations_of_a_key_the_first_counts() {
    let mut table = GlobalConfigTable { entries: vec![] };
    let defs = vec![declares("c", vec![("k", num(1)), ("k", num(2))]), declares("c", vec![("k", num(3)), ("j", num(4))])];
    assert!(table.reconcile(&defs));
    assert_eq!(table.entries, entries(vec![("c", obj(vec![("k", num(1)), ("j", num(4))]))]));
}

#[test]
fn tables_and_declarations_are_checked_for_form() {
    let twice = GlobalConfigTable { entries: entries(vec![("c", obj(vec![])), ("c", obj(vec![]))]) };
    assert!(!twice.is_wf());
    let inner = GlobalConfigTable { entries: entries(vec![("c", obj(vec![("k", num(1)), ("k", num(2))]))]) };
    assert!(!inner.is_wf());
    assert!(GlobalConfigTable { entries: entries(vec![("c", obj(vec![("k", num(1))])), ("d", num(1))]) }.is_wf());
    assert!(declares("c", vec![("k", num(1)), ("k", num(2))]).is_wf());
    assert!(!declares("c", vec![("k", obj(vec![("x", num(1)), ("x", num(2))]))]).is_wf());
}
