use agent_stream_app::error::{Invalid, StoreError};
use agent_stream_app::flow_name::{flows_dir_path, is_flow_file, name_for, path_for, stem_of};

#[test]
fn path_of_a_single_segment_is_one_file() {
    assert_eq!(path_for("main"), Ok(vec!["main.json".to_string()]));
}

#[test]
fn path_of_nested_name_has_directories() {
    assert_eq!(
        path_for("a/b/c"),
        Ok(vec!["a".to_string(), "b".to_string(), "c.json".to_string()])
    );
}

#[test]
fn path_keeps_dots_in_the_last_segment() {
    assert_eq!(path_for("v1.2"), Ok(vec!["v1.2.json".to_string()]));
}

#[test]
fn path_refuses_empty_segments() {
    let refused = Err(StoreError::Validation(Invalid::MalformedSegment));
    assert_eq!(path_for(""), refused);
    assert_eq!(path_for("a//b"), refused);
    assert_eq!(path_for("/a"), refused);
    assert_eq!(path_for("a/"), refused);
}

#[test]
fn path_refuses_untrimmed_segments() {
    let refused = Err(StoreError::Validation(Invalid::MalformedSegment));
    assert_eq!(path_for(" a"), refused);
    assert_eq!(path_for("a /b"), refused);
    assert_eq!(path_for("a/\tb"), refused);
    assert_eq!(path_for("a/b\u{3000}"), refused);
    assert_eq!(path_for("   "), refused);
}

#[test]
fn inner_white_space_is_kept() {
    assert_eq!(path_for("my flows/first one"), Ok(vec!["my flows".to_string(), "first one.json".to_string()]));
}

#[test]
fn name_under_empty_prefix_is_the_stem() {
    assert_eq!(name_for("b.json", ""), Ok("b".to_string()));
}

#[test]
fn name_under_prefix_is_joined() {
    assert_eq!(name_for("b.json", "a"), Ok("a/b".to_string()));
    assert_eq!(name_for("c.json", "a/b"), Ok("a/b/c".to_string()));
}

#[test]
fn name_trims_the_stem() {
    assert_eq!(name_for(" b .json", "a"), Ok("a/b".to_string()));
}

#[test]
fn name_of_blank_stem_is_refused() {
    assert_eq!(name_for(" .json", "a"), Err(StoreError::Validation(Invalid::EmptyName)));
    assert_eq!(name_for("", ""), Err(StoreError::Validation(Invalid::EmptyName)));
}

#[test]
fn stem_and_extension_split_at_the_last_dot() {
    assert_eq!(stem_of("a.b.json"), "a.b");
    assert_eq!(stem_of("plain"), "plain");
    assert_eq!(stem_of(".json"), ".json");
    assert_eq!(stem_of("a."), "a");
    assert!(is_flow_file("a.json"));
    assert!(is_flow_file("a.b.json"));
    assert!(!is_flow_file(".json"));
    assert!(!is_flow_file("json"));
    assert!(!is_flow_file("a.JSON"));
    assert!(!is_flow_file("a.json.bak"));
    assert!(!is_flow_file("a.jsonx"));
}

#[test]
fn path_then_name_round_trips() {
    for name in ["main", "a/b", "a/b/c", "deep/er/still/x.y", "with space/in name"] {
        let mut path = path_for(name).unwrap();
        let file = path.pop().unwrap();
        let prefix = path.join("/");
        assert!(is_flow_file(&file));
        assert_eq!(name_for(&file, &prefix), Ok(name.to_string()));
    }
}

#[test]
fn flows_directory_lies_below_the_home_directory() {
    assert_eq!(flows_dir_path(), vec![".askit".to_string(), "flows".to_string()]);
}
