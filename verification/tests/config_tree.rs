use agent_stream_app::config_tree::{keys_distinct, position_of, ConfigTree, Number};

fn num(n: u64) -> ConfigTree {
    ConfigTree::Number(Number::PosInt(n))
}

fn text(s: &str) -> ConfigTree {
    ConfigTree::Text(s.to_string())
}

fn obj(entries: Vec<(&str, ConfigTree)>) -> ConfigTree {
    ConfigTree::Object(entries.into_iter().map(|(k, v)| (k.to_string(), v)).collect())
}

fn merged(mut a: ConfigTree, b: &ConfigTree) -> ConfigTree {
    a.merge(b);
    a
}

#[test]
fn null_member_deletes_the_key() {
    let a = obj(vec![("x", obj(vec![("y", num(1)), ("z", num(2))]))]);
    let b = obj(vec![("x", obj(vec![("y", ConfigTree::Null)]))]);
    assert_eq!(merged(a, &b), obj(vec![("x", obj(vec![("z", num(2))]))]));
}

#[test]
fn merge_leaves_the_second_tree_alone() {
    let a = obj(vec![("x", num(1))]);
    let b = obj(vec![("x", ConfigTree::Null), ("y", obj(vec![("z", text("t"))]))]);
    let before = b.clone();
    let _ = merged(a, &b);
    assert_eq!(b, before);
}

#[test]
fn non_object_replaces_whole() {
    let a = obj(vec![("x", num(1))]);
    assert_eq!(merged(a, &num(7)), num(7));
    assert_eq!(merged(num(7), &obj(vec![("x", num(1))])), obj(vec![("x", num(1))]));
    assert_eq!(merged(obj(vec![("x", num(1))]), &ConfigTree::Null), ConfigTree::Null);
    let arr = ConfigTree::Array(vec![num(1), ConfigTree::Null]);
    assert_eq!(merged(ConfigTree::Array(vec![num(3)]), &arr), arr);
}

#[test]
fn members_merge_key_by_key() {
    let a = obj(vec![("keep", num(1)), ("over", num(2)), ("deep", obj(vec![("p", num(3)), ("q", num(4))]))]);
    let b = obj(vec![("over", text("new")), ("deep", obj(vec![("q", num(5)), ("r", num(6))])), ("added", ConfigTree::Bool(true))]);
    let expected = obj(vec![
        ("keep", num(1)),
        ("over", text("new")),
        ("deep", obj(vec![("p", num(3)), ("q", num(5)), ("r", num(6))])),
        ("added", ConfigTree::Bool(true)),
    ]);
    assert_eq!(merged(a, &b), expected);
}

#[test]
fn deleting_an_absent_key_changes_nothing() {
    let a = obj(vec![("x", num(1))]);
    let b = obj(vec![("gone", ConfigTree::Null)]);
    assert_eq!(merged(a.clone(), &b), a);
}

#[test]
fn object_member_over_a_scalar_replaces_it() {
    let a = obj(vec![("x", num(1))]);
    let b = obj(vec![("x", obj(vec![("y", num(2))]))]);
    assert_eq!(merged(a, &b), b);
}

#[test]
fn second_merge_changes_nothing_when_the_merge_settles() {
    let a = obj(vec![("x", obj(vec![("y", num(1)), ("z", num(2))])), ("w", num(0))]);
    let b = obj(vec![("x", obj(vec![("y", ConfigTree::Null), ("n", num(9))])), ("v", text("s"))]);
    let once = merged(a, &b);
    let twice = merged(once.clone(), &b);
    assert_eq!(twice, once);
}

#[test]
fn second_merge_removes_nulls_copied_over_a_scalar() {
    let a = num(1);
    let b = obj(vec![("x", ConfigTree::Null)]);
    let once = merged(a, &b);
    assert_eq!(once, b);
    let twice = merged(once.clone(), &b);
    assert_eq!(twice, obj(vec![]));
}

#[test]
fn get_finds_members_of_objects_only() {
    let a = obj(vec![("x", num(1)), ("y", ConfigTree::Null)]);
    assert_eq!(a.get("x"), Some(&num(1)));
    assert_eq!(a.get("y"), Some(&ConfigTree::Null));
    assert_eq!(a.get("z"), None);
    assert_eq!(num(1).get("x"), None);
    assert!(ConfigTree::Null.is_null());
    assert!(!a.is_null());
    assert!(a.is_object());
    assert!(!text("x").is_object());
}

#[test]
fn position_is_that_of_the_key() {
    let entries = vec![("a".to_string(), 1), ("b".to_string(), 2), ("\u{e9}".to_string(), 3)];
    assert_eq!(position_of(&entries, "a"), Some(0));
    assert_eq!(position_of(&entries, "\u{e9}"), Some(2));
    assert_eq!(position_of(&entries, "e"), None);
    assert_eq!(position_of(&entries, ""), None);
}

#[test]
fn clone_is_equal() {
    let a = obj(vec![
        ("n", ConfigTree::Number(Number::NegInt(-3))),
        ("f", ConfigTree::Number(Number::Float(0x3ff8000000000000))),
        ("l", ConfigTree::Array(vec![text("a"), obj(vec![("k", ConfigTree::Bool(false))])])),
    ]);
    assert_eq!(a.clone(), a);
}

#[test]
fn first_position_is_reported() {
    let entries = vec![("a".to_string(), 1), ("b".to_string(), 2), ("a".to_string(), 3)];
    assert_eq!(position_of(&entries, "a"), Some(0));
    assert_eq!(position_of(&entries, "b"), Some(1));
}

#[test]
fn well_formed_means_no_key_twice_at_any_depth() {
    assert!(keys_distinct(&Vec::<(String, u8)>::new()));
    assert!(keys_distinct(&vec![("a".to_string(), 1), ("b".to_string(), 2)]));
    assert!(!keys_distinct(&vec![("a".to_string(), 1), ("b".to_string(), 2), ("a".to_string(), 1)]));
    assert!(obj(vec![("a", num(1)), ("b", obj(vec![("a", num(2))]))]).is_wf());
    assert!(!obj(vec![("a", num(1)), ("a", num(1))]).is_wf());
    assert!(!obj(vec![("a", obj(vec![("k", num(1)), ("k", num(2))]))]).is_wf());
    assert!(!ConfigTree::Array(vec![num(1), obj(vec![("k", num(1)), ("k", num(2))])]).is_wf());
    assert!(ConfigTree::Array(vec![num(1), num(1)]).is_wf());
    assert!(text("plain").is_wf());
}
