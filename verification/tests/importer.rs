use agent_stream_app::error::{Invalid, IoStep, StoreError};
use agent_stream_app::flow_store::ASApp;
use agent_stream_app::document::FlowDocument;
use agent_stream_app::importer::{
    adopt_parsed, check_flow_file, enlisted, for_user, import_document, import_found,
    walk_outcome, WalkOutcome,
};
use agent_stream_app::walk::{import_tree, FlowsDir, FoundFlow, TreeEntry};
use agent_stream_kit::ASKit;

const EMPTY_FLOW: &str = r#"{"name":"b","nodes":[],"edges":[]}"#;

const SMALL_FLOW: &str = r#"{
  "name": "x",
  "nodes": [
    {"id": "n1", "def_name": "alpha", "enabled": true, "x": 10},
    {"id": "n2", "def_name": "beta", "enabled": false},
    {"id": "n3", "def_name": "gamma", "enabled": true}
  ],
  "edges": [
    {"id": "e1", "source": "n1", "source_handle": "out", "target": "n2", "target_handle": "in"},
    {"id": "e2", "source": "n2", "source_handle": "out", "target": "n3", "target_handle": "in"},
    {"id": "e3", "source": "n3", "source_handle": "out", "target": "missing", "target_handle": "in"}
  ],
  "viewport": {"zoom": 1}
}"#;

fn file(name: &str) -> TreeEntry {
    TreeEntry::File(name.to_string())
}

fn dir(name: &str, entries: Vec<TreeEntry>) -> TreeEntry {
    TreeEntry::Directory(name.to_string(), entries)
}

fn found(path: Vec<&str>, prefix: &str) -> FoundFlow {
    FoundFlow { path: path.into_iter().map(|s| s.to_string()).collect(), prefix: prefix.to_string() }
}

#[test]
fn one_nested_file_gives_one_flow() {
    let listing = vec![dir("a", vec![file("b.json")])];
    let plan = import_tree(&FlowsDir::Directory(listing));
    assert_eq!(plan.failure, None);
    assert_eq!(plan.found, vec![found(vec!["a", "b.json"], "a")]);

    let engine = ASKit::new();
    let outcome = import_found(&engine, &plan.found[0], &Ok(EMPTY_FLOW.to_string()));
    assert_eq!(outcome, WalkOutcome::Registered("a/b".to_string()));
    let flows = engine.get_agent_flows();
    assert_eq!(flows.len(), 1);
    assert_eq!(flows.get("a/b").map(|f| f.name().to_string()), Some("a/b".to_string()));
}

#[test]
fn walk_is_depth_first_in_listing_order() {
    let listing = vec![
        file("top.json"),
        file("notes.txt"),
        dir("a", vec![file("one.json"), dir("deep", vec![file("two.json"), file(".json")]), file("three.json")]),
        TreeEntry::Other("socket".to_string()),
        dir("empty", vec![]),
        file("last.json"),
    ];
    let plan = import_tree(&FlowsDir::Directory(listing));
    assert_eq!(plan.failure, None);
    assert_eq!(
        plan.found,
        vec![
            found(vec!["top.json"], ""),
            found(vec!["a", "one.json"], "a"),
            found(vec!["a", "deep", "two.json"], "a/deep"),
            found(vec!["a", "three.json"], "a"),
            found(vec!["last.json"], ""),
        ]
    );
}

#[test]
fn walk_of_an_empty_directory_finds_nothing() {
    let plan = import_tree(&FlowsDir::Directory(vec![]));
    assert_eq!(plan.found, vec![]);
    assert_eq!(plan.failure, None);
    assert!(!plan.create_root);
}

#[test]
fn a_missing_flows_directory_is_created_and_not_walked() {
    let plan = import_tree(&FlowsDir::Missing);
    assert!(plan.create_root);
    assert_eq!(plan.found, vec![]);
    assert_eq!(plan.failure, None);
}

#[test]
fn something_else_in_place_of_the_flows_directory_holds_no_flows() {
    let plan = import_tree(&FlowsDir::NotADirectory);
    assert!(!plan.create_root);
    assert_eq!(plan.found, vec![]);
    assert_eq!(plan.failure, None);
    let unlisted = import_tree(&FlowsDir::Unlisted("denied".to_string()));
    assert!(!unlisted.create_root);
    assert_eq!(unlisted.found, vec![]);
    assert_eq!(unlisted.failure, Some(StoreError::Io(IoStep::ReadDir, "denied".to_string())));
}

#[test]
fn walk_ends_at_a_directory_that_cannot_be_listed() {
    let listing = vec![
        file("first.json"),
        dir("a", vec![file("in.json"), TreeEntry::Unlisted("locked".to_string(), "denied".to_string()), file("after.json")]),
        file("never.json"),
    ];
    let plan = import_tree(&FlowsDir::Directory(listing));
    assert_eq!(plan.found, vec![found(vec!["first.json"], ""), found(vec!["a", "in.json"], "a")]);
    assert_eq!(plan.failure, Some(StoreError::Io(IoStep::ReadDir, "denied".to_string())));
}

#[test]
fn walk_ends_at_an_entry_that_cannot_be_read() {
    let listing = vec![TreeEntry::Unreadable("broken".to_string()), file("never.json")];
    let plan = import_tree(&FlowsDir::Directory(listing));
    assert_eq!(plan.found, vec![]);
    assert_eq!(plan.failure, Some(StoreError::Io(IoStep::ReadEntry, "broken".to_string())));
}

#[test]
fn a_bad_file_is_passed_over() {
    let engine = ASKit::new();
    let flow = found(vec!["a", "bad.json"], "a");
    let outcome = import_found(&engine, &flow, &Ok("{ not json".to_string()));
    assert!(matches!(outcome, WalkOutcome::Skipped(StoreError::Parse(_))));
    let unread = import_found(&engine, &flow, &Err("gone".to_string()));
    assert_eq!(unread, WalkOutcome::Skipped(StoreError::Io(IoStep::ReadFile, "gone".to_string())));
    let blank = import_found(&engine, &found(vec![" .json"], ""), &Ok(EMPTY_FLOW.to_string()));
    assert_eq!(blank, WalkOutcome::Skipped(StoreError::Validation(Invalid::EmptyName)));
    let other = import_found(&engine, &found(vec!["a.txt"], ""), &Ok(EMPTY_FLOW.to_string()));
    assert_eq!(other, WalkOutcome::Skipped(StoreError::Validation(Invalid::NotAFlowFile)));
    let none = import_found(&engine, &found(vec![], ""), &Ok(EMPTY_FLOW.to_string()));
    assert_eq!(none, WalkOutcome::Skipped(StoreError::Validation(Invalid::NotAFlowFile)));
    assert!(engine.get_agent_flows().is_empty());
}

#[test]
fn a_flow_that_the_engine_refuses_ends_the_walk() {
    let engine = ASKit::new();
    let flow = found(vec!["b.json"], "");
    assert_eq!(import_found(&engine, &flow, &Ok(EMPTY_FLOW.to_string())), WalkOutcome::Registered("b".to_string()));
    let again = import_found(&engine, &flow, &Ok(EMPTY_FLOW.to_string()));
    assert!(matches!(again, WalkOutcome::Aborted(StoreError::Engine(_))));
    assert_eq!(engine.get_agent_flows().len(), 1);
}

#[test]
fn only_files_with_the_extension_are_imported() {
    assert_eq!(check_flow_file("a.json", true), Ok(()));
    assert_eq!(check_flow_file("a.json", false), Err(StoreError::Validation(Invalid::NotAFlowFile)));
    assert_eq!(check_flow_file("a.yaml", true), Err(StoreError::Validation(Invalid::NotAFlowFile)));
    assert_eq!(check_flow_file("", true), Err(StoreError::Validation(Invalid::NotAFlowFile)));
}

#[test]
fn document_is_named_by_its_file() {
    let engine = ASKit::new();
    let doc = import_document(&engine, " my flow .json", true, SMALL_FLOW).unwrap();
    assert_eq!(doc.name, "my flow");
    assert_eq!(doc.nodes.len(), 3);
    assert_eq!(doc.edges.len(), 2);
    let defs: Vec<&str> = doc.nodes.iter().map(|n| n.def_name.as_str()).collect();
    assert_eq!(defs, vec!["alpha", "beta", "gamma"]);
    let enabled: Vec<bool> = doc.nodes.iter().map(|n| n.enabled).collect();
    assert_eq!(enabled, vec![true, false, true]);
    assert!(doc.extensions.contains_key("viewport"));
    assert!(engine.get_agent_flows().is_empty());
}

#[test]
fn document_errors_come_in_order() {
    let engine = ASKit::new();
    let not_a_file = import_document(&engine, "a.json", false, "{ not json");
    assert!(matches!(not_a_file, Err(StoreError::Validation(Invalid::NotAFlowFile))));
    let wrong_extension = import_document(&engine, "a.txt", true, EMPTY_FLOW);
    assert!(matches!(wrong_extension, Err(StoreError::Validation(Invalid::NotAFlowFile))));
    let malformed = import_document(&engine, " .json", true, "{ not json");
    assert!(matches!(malformed, Err(StoreError::Parse(_))));
    let nameless = import_document(&engine, " .json", true, EMPTY_FLOW);
    assert!(matches!(nameless, Err(StoreError::Validation(Invalid::EmptyName))));
}

#[test]
fn two_imports_of_one_document_share_no_identifier() {
    let engine = ASKit::new();
    let first = import_document(&engine, "x.json", true, SMALL_FLOW).unwrap();
    let second = import_document(&engine, "x.json", true, SMALL_FLOW).unwrap();
    let mut seen = std::collections::HashSet::new();
    for doc in [&first, &second] {
        for node in &doc.nodes {
            assert!(seen.insert(node.id.clone()), "identifier {} used twice", node.id);
        }
        for edge in &doc.edges {
            assert!(seen.insert(edge.id.clone()), "identifier {} used twice", edge.id);
        }
    }
    assert_eq!(seen.len(), 10);
    for doc in [&first, &second] {
        let ids: Vec<&str> = doc.nodes.iter().map(|n| n.id.as_str()).collect();
        for edge in &doc.edges {
            assert!(ids.contains(&edge.source.as_str()));
            assert!(ids.contains(&edge.target.as_str()));
        }
        assert!(!ids.contains(&"n1"));
    }
}

#[test]
fn user_import_disables_nodes_and_registers() {
    let app = ASApp::new(ASKit::new());
    let engine = app.askit();
    let doc = app.import_agent_flow("x.json", true, SMALL_FLOW).unwrap();
    assert_eq!(doc.name, "x");
    assert!(doc.nodes.iter().all(|n| !n.enabled));
    assert_eq!(doc.nodes.len(), 3);
    let flows = engine.get_agent_flows();
    assert_eq!(flows.len(), 1);
    assert!(flows.get("x").unwrap().nodes().iter().all(|n| !n.enabled));
}

#[test]
fn user_import_makes_the_name_unique() {
    let app = ASApp::new(ASKit::new());
    let engine = app.askit();
    let first = app.import_agent_flow("x.json", true, EMPTY_FLOW).unwrap();
    let second = app.import_agent_flow("x.json", true, EMPTY_FLOW).unwrap();
    let third = app.import_agent_flow("x.json", true, EMPTY_FLOW).unwrap();
    assert_eq!(first.name, "x");
    assert_eq!(second.name, "x2");
    assert_eq!(third.name, "x3");
    assert_eq!(engine.get_agent_flows().len(), 3);
}

#[test]
fn user_import_refuses_what_import_refuses() {
    let app = ASApp::new(ASKit::new());
    let engine = app.askit();
    assert!(matches!(
        app.import_agent_flow("x.json", false, EMPTY_FLOW),
        Err(StoreError::Validation(Invalid::NotAFlowFile))
    ));
    assert!(matches!(app.import_agent_flow("x.json", true, "[]"), Err(StoreError::Parse(_))));
    assert!(matches!(
        app.import_agent_flow("\t.json", true, EMPTY_FLOW),
        Err(StoreError::Validation(Invalid::EmptyName))
    ));
    assert!(engine.get_agent_flows().is_empty());
}

#[test]
fn adoption_passes_the_parse_failure_on() {
    let engine = ASKit::new();
    let r = adopt_parsed(&engine, "a.json", Err("expected value at line 1".to_string()));
    assert!(matches!(r, Err(StoreError::Parse(m)) if m == "expected value at line 1"));
}

#[test]
fn adoption_names_and_copies_the_document() {
    let engine = ASKit::new();
    let parsed = import_document(&engine, "source.json", true, SMALL_FLOW).unwrap();
    let source_ids: Vec<String> = parsed.nodes.iter().map(|n| n.id.clone()).collect();
    let adopted = adopt_parsed(&engine, "dir.name.json", Ok(parsed)).unwrap();
    assert_eq!(adopted.name, "dir.name");
    assert_eq!(adopted.nodes.len(), 3);
    assert!(adopted.nodes.iter().all(|n| !source_ids.contains(&n.id)));
    let nameless = FlowDocument {
        name: "x".to_string(),
        nodes: vec![],
        edges: vec![],
        extensions: std::collections::HashMap::new(),
    };
    assert!(matches!(
        adopt_parsed(&engine, "\u{a0}.json", Ok(nameless)),
        Err(StoreError::Validation(Invalid::EmptyName))
    ));
}

#[test]
fn user_documents_are_renamed_and_disabled() {
    let engine = ASKit::new();
    let doc = import_document(&engine, "x.json", true, SMALL_FLOW).unwrap();
    let ids: Vec<String> = doc.nodes.iter().map(|n| n.id.clone()).collect();
    let edges = doc.edges.len();
    let out = for_user(doc, "fresh".to_string());
    assert_eq!(out.name, "fresh");
    assert_eq!(out.nodes.iter().map(|n| n.id.clone()).collect::<Vec<_>>(), ids);
    assert_eq!(out.nodes.iter().map(|n| n.def_name.as_str()).collect::<Vec<_>>(), vec!["alpha", "beta", "gamma"]);
    assert!(out.nodes.iter().all(|n| !n.enabled));
    assert!(out.nodes[0].extensions.contains_key("x"));
    assert_eq!(out.edges.len(), edges);
    assert!(out.extensions.contains_key("viewport"));
}

#[test]
fn the_engine_answer_decides_the_outcome() {
    let doc = FlowDocument {
        name: "x".to_string(),
        nodes: vec![],
        edges: vec![],
        extensions: std::collections::HashMap::new(),
    };
    assert!(matches!(
        enlisted(doc, Err("Agent flow x already exists".to_string())),
        Err(StoreError::Engine(m)) if m == "Agent flow x already exists"
    ));
    let doc = FlowDocument {
        name: "y".to_string(),
        nodes: vec![],
        edges: vec![],
        extensions: std::collections::HashMap::new(),
    };
    assert!(matches!(enlisted(doc, Ok(())), Ok(d) if d.name == "y"));
    assert_eq!(walk_outcome("a/b".to_string(), Ok(())), WalkOutcome::Registered("a/b".to_string()));
    assert_eq!(
        walk_outcome("a/b".to_string(), Err("no".to_string())),
        WalkOutcome::Aborted(StoreError::Engine("no".to_string()))
    );
}
