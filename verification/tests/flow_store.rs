use agent_stream_app::document::FlowDocument;
use agent_stream_app::error::{Invalid, IoStep, StoreError};
use agent_stream_app::flow_store::{
    write_request, ASApp, Answer, Progress, RemoveFacts, RenameFacts, Request, SaveFacts,
};
use agent_stream_app::importer::import_document;
use agent_stream_kit::{ASKit, AgentFlow};
use std::collections::{HashMap, HashSet};

fn path(parts: Vec<&str>) -> Vec<String> {
    parts.into_iter().map(|s| s.to_string()).collect()
}

fn no_rename_facts() -> RenameFacts {
    RenameFacts { target_exists: None, engine: None, source_exists: None, moved: None }
}

fn no_remove_facts() -> RemoveFacts {
    RemoveFacts { engine: None, file_exists: None, removed: None }
}

fn store() -> ASApp {
    ASApp::new(ASKit::new())
}

fn empty_doc(name: &str) -> FlowDocument {
    FlowDocument { name: name.to_string(), nodes: vec![], edges: vec![], extensions: HashMap::new() }
}

/// A host that keeps the file tree as a set of paths and renames in a real engine.
fn run_rename(app: &ASApp, files: &mut HashSet<Vec<String>>, old: &str, new: &str) -> Result<String, StoreError> {
    let mut facts = RenameFacts::new();
    let mut asked = 0;
    loop {
        let answer = match app.rename_agent_flow(old, new, &facts) {
            Progress::Done(name) => return Ok(name),
            Progress::Failed(e) => return Err(e),
            Progress::Ask(Request::FileExists(p)) => Answer::Exists(files.contains(&p)),
            Progress::Ask(Request::RenameInEngine(from, to)) => {
                Answer::Outcome(app.askit().rename_agent_flow(&from, &to).map(|_| ()).map_err(|e| e.to_string()))
            }
            Progress::Ask(Request::MoveFile(from, to)) => {
                assert!(files.remove(&from));
                files.insert(to);
                Answer::Outcome(Ok(()))
            }
            Progress::Ask(other) => panic!("a rename never asks for {:?}", other),
        };
        facts.record(answer);
        asked += 1;
        assert!(asked <= 4);
    }
}

#[test]
fn rename_moves_engine_entry_and_file() {
    let app = store();
    let engine = app.askit();
    engine.add_agent_flow(&AgentFlow::new("a/old".to_string())).unwrap();
    let mut files = HashSet::from([path(vec!["a", "old.json"])]);
    assert_eq!(run_rename(&app, &mut files, "a/old", "b/new"), Ok("b/new".to_string()));
    assert_eq!(files, HashSet::from([path(vec!["b", "new.json"])]));
    let flows = engine.get_agent_flows();
    assert!(flows.contains_key("b/new") && !flows.contains_key("a/old"));
}

#[test]
fn rename_onto_an_existing_file_changes_nothing() {
    let app = store();
    let engine = app.askit();
    engine.add_agent_flow(&AgentFlow::new("old".to_string())).unwrap();
    let mut files = HashSet::from([path(vec!["old.json"]), path(vec!["new.json"])]);
    let before = files.clone();
    assert_eq!(run_rename(&app, &mut files, "old", "new"), Err(StoreError::Conflict("new.json".to_string())));
    assert_eq!(files, before);
    let flows = engine.get_agent_flows();
    assert!(flows.contains_key("old") && !flows.contains_key("new"));
    assert_eq!(flows.len(), 1);
}

#[test]
fn rename_conflict_wins_over_every_later_fact() {
    let facts = RenameFacts {
        target_exists: Some(true),
        engine: Some(Ok(())),
        source_exists: Some(true),
        moved: Some(Ok(())),
    };
    assert_eq!(
        store().rename_agent_flow("a/x", "b/y", &facts),
        Progress::Failed(StoreError::Conflict("b/y.json".to_string()))
    );
}

#[test]
fn rename_steps_in_order() {
    let mut facts = no_rename_facts();
    assert_eq!(store().rename_agent_flow("a/x", "y", &facts), Progress::Ask(Request::FileExists(path(vec!["y.json"]))));
    facts.target_exists = Some(false);
    assert_eq!(
        store().rename_agent_flow("a/x", "y", &facts),
        Progress::Ask(Request::RenameInEngine("a/x".to_string(), "y".to_string()))
    );
    facts.engine = Some(Ok(()));
    assert_eq!(store().rename_agent_flow("a/x", "y", &facts), Progress::Ask(Request::FileExists(path(vec!["a", "x.json"]))));
    facts.source_exists = Some(true);
    assert_eq!(
        store().rename_agent_flow("a/x", "y", &facts),
        Progress::Ask(Request::MoveFile(path(vec!["a", "x.json"]), path(vec!["y.json"])))
    );
    facts.moved = Some(Ok(()));
    assert_eq!(store().rename_agent_flow("a/x", "y", &facts), Progress::Done("y".to_string()));
}

#[test]
fn rename_without_a_file_only_renames_in_the_engine() {
    let app = store();
    let engine = app.askit();
    engine.add_agent_flow(&AgentFlow::new("old".to_string())).unwrap();
    let mut files = HashSet::new();
    assert_eq!(run_rename(&app, &mut files, "old", "new"), Ok("new".to_string()));
    assert!(files.is_empty());
    assert!(engine.get_agent_flows().contains_key("new"));
}

#[test]
fn rename_reports_the_engine_refusal_and_leaves_the_file() {
    let app = store();
    let mut files = HashSet::from([path(vec!["old.json"])]);
    let result = run_rename(&app, &mut files, "old", "new");
    assert!(matches!(result, Err(StoreError::Engine(_))));
    assert_eq!(files, HashSet::from([path(vec!["old.json"])]));
}

#[test]
fn rename_reports_a_failed_move() {
    let facts = RenameFacts {
        target_exists: Some(false),
        engine: Some(Ok(())),
        source_exists: Some(true),
        moved: Some(Err("disk full".to_string())),
    };
    let r = store().rename_agent_flow("old", "new", &facts);
    assert_eq!(r, Progress::Failed(StoreError::Io(IoStep::MoveFile, "disk full".to_string())));
    if let Progress::Failed(e) = r {
        assert_eq!(e.message(), "Failed to rename old agent flow file: disk full");
    }
}

#[test]
fn rename_refuses_malformed_names_first() {
    let refused = Progress::Failed(StoreError::Validation(Invalid::MalformedSegment));
    assert_eq!(store().rename_agent_flow("old", "a//b", &no_rename_facts()), refused);
    assert_eq!(store().rename_agent_flow(" old", "new", &no_rename_facts()), refused);
    let facts = RenameFacts { target_exists: Some(true), engine: None, source_exists: None, moved: None };
    assert_eq!(store().rename_agent_flow("old", "", &facts), refused);
}

#[test]
fn remove_drops_the_engine_entry_then_the_file() {
    let mut facts = no_remove_facts();
    assert_eq!(store().remove_agent_flow("a/x", &facts), Progress::Ask(Request::RemoveFromEngine("a/x".to_string())));
    facts.engine = Some(Ok(()));
    assert_eq!(store().remove_agent_flow("a/x", &facts), Progress::Ask(Request::FileExists(path(vec!["a", "x.json"]))));
    facts.file_exists = Some(true);
    assert_eq!(store().remove_agent_flow("a/x", &facts), Progress::Ask(Request::RemoveFile(path(vec!["a", "x.json"]))));
    facts.removed = Some(Ok(()));
    assert_eq!(store().remove_agent_flow("a/x", &facts), Progress::Done("a/x".to_string()));
}

#[test]
fn remove_without_a_file_is_done_after_the_engine() {
    let facts = RemoveFacts { engine: Some(Ok(())), file_exists: Some(false), removed: None };
    assert_eq!(store().remove_agent_flow("x", &facts), Progress::Done("x".to_string()));
}

#[test]
fn remove_stops_at_the_engine_refusal() {
    let facts = RemoveFacts {
        engine: Some(Err("Agent flow x not found".to_string())),
        file_exists: Some(true),
        removed: None,
    };
    assert_eq!(store().remove_agent_flow("x", &facts), Progress::Failed(StoreError::Engine("Agent flow x not found".to_string())));
}

#[test]
fn remove_reports_a_failed_deletion() {
    let facts = RemoveFacts { engine: Some(Ok(())), file_exists: Some(true), removed: Some(Err("busy".to_string())) };
    assert_eq!(store().remove_agent_flow("x", &facts), Progress::Failed(StoreError::Io(IoStep::RemoveFile, "busy".to_string())));
    assert_eq!(
        store().remove_agent_flow("x/", &no_remove_facts()),
        Progress::Failed(StoreError::Validation(Invalid::MalformedSegment))
    );
}

#[test]
fn save_creates_the_directory_then_writes_the_whole_document() {
    let doc = empty_doc("a/b/c");
    let mut facts = SaveFacts { dir_ready: None, written: None };
    assert_eq!(store().save_agent_flow(&doc, &facts), Progress::Ask(Request::EnsureDir(path(vec!["a", "b"]))));
    facts.dir_ready = Some(Ok(()));
    match store().save_agent_flow(&doc, &facts) {
        Progress::Ask(Request::WriteFile(p, text)) => {
            assert_eq!(p, path(vec!["a", "b", "c.json"]));
            let back = AgentFlow::from_json(&text).unwrap();
            assert_eq!(back.name(), "a/b/c");
            assert!(back.nodes().is_empty() && back.edges().is_empty());
        }
        other => panic!("expected a write, got {:?}", other),
    }
    facts.written = Some(Ok(()));
    assert_eq!(store().save_agent_flow(&doc, &facts), Progress::Done("a/b/c".to_string()));
}

#[test]
fn save_of_a_top_level_flow_ensures_the_flows_directory() {
    let facts = SaveFacts { dir_ready: None, written: None };
    assert_eq!(store().save_agent_flow(&empty_doc("main"), &facts), Progress::Ask(Request::EnsureDir(vec![])));
}

#[test]
fn save_writes_what_import_reads() {
    let source = r#"{"name":"n","nodes":[{"id":"1","def_name":"d","enabled":true,"pos":[1,2]}],"edges":[],"zoom":2}"#;
    let engine = ASKit::new();
    let doc = import_document(&engine, "kept.json", true, source).unwrap();
    let facts = SaveFacts { dir_ready: Some(Ok(())), written: None };
    match store().save_agent_flow(&doc, &facts) {
        Progress::Ask(Request::WriteFile(p, text)) => {
            assert_eq!(p, path(vec!["kept.json"]));
            let back = AgentFlow::from_json(&text).unwrap();
            assert_eq!(back.name(), "kept");
            assert_eq!(back.nodes().len(), 1);
            assert_eq!(back.nodes()[0].def_name, "d");
            assert_eq!(back.nodes()[0].id, doc.nodes[0].id);
            assert!(back.nodes()[0].extensions.contains_key("pos"));
            assert!(back.extensions.contains_key("zoom"));
        }
        other => panic!("expected a write, got {:?}", other),
    }
}

#[test]
fn save_reports_failed_steps() {
    let doc = empty_doc("x");
    let no_dir = SaveFacts { dir_ready: Some(Err("read-only".to_string())), written: None };
    assert_eq!(store().save_agent_flow(&doc, &no_dir), Progress::Failed(StoreError::Io(IoStep::CreateParentDir, "read-only".to_string())));
    let no_write = SaveFacts { dir_ready: Some(Ok(())), written: Some(Err("full".to_string())) };
    assert_eq!(store().save_agent_flow(&doc, &no_write), Progress::Failed(StoreError::Io(IoStep::WriteFile, "full".to_string())));
    let unnamed = SaveFacts { dir_ready: None, written: None };
    assert_eq!(store().save_agent_flow(&empty_doc(""), &unnamed), Progress::Failed(StoreError::Validation(Invalid::MalformedSegment)));
}

#[test]
fn write_request_carries_text_or_failure() {
    assert_eq!(
        write_request(path(vec!["a.json"]), Ok("{}".to_string())),
        Progress::Ask(Request::WriteFile(path(vec!["a.json"]), "{}".to_string()))
    );
    assert_eq!(
        write_request(path(vec!["a.json"]), Err("bad".to_string())),
        Progress::Failed(StoreError::Parse("bad".to_string()))
    );
}

#[test]
fn answers_are_taken_down_in_the_order_of_the_requests() {
    let mut facts = RenameFacts::new();
    assert_eq!(facts, no_rename_facts());
    facts.record(Answer::Outcome(Ok(())));
    assert_eq!(facts, no_rename_facts());
    facts.record(Answer::Exists(false));
    assert_eq!(facts.target_exists, Some(false));
    facts.record(Answer::Exists(true));
    assert_eq!((facts.target_exists, facts.source_exists), (Some(false), None));
    facts.record(Answer::Outcome(Ok(())));
    assert_eq!(facts.engine, Some(Ok(())));
    facts.record(Answer::Exists(true));
    assert_eq!(facts.source_exists, Some(true));
    facts.record(Answer::Outcome(Err("full".to_string())));
    assert_eq!(facts.moved, Some(Err("full".to_string())));
    let full = RenameFacts {
        target_exists: Some(false),
        engine: Some(Ok(())),
        source_exists: Some(true),
        moved: Some(Err("full".to_string())),
    };
    assert_eq!(facts, full);
    facts.record(Answer::Exists(false));
    assert_eq!(facts, full);
}

#[test]
fn removal_and_save_take_answers_down_too() {
    let mut removal = RemoveFacts::new();
    assert_eq!(removal, no_remove_facts());
    removal.record(Answer::Exists(true));
    assert_eq!(removal, no_remove_facts());
    removal.record(Answer::Outcome(Ok(())));
    removal.record(Answer::Exists(true));
    removal.record(Answer::Outcome(Err("busy".to_string())));
    assert_eq!(
        removal,
        RemoveFacts { engine: Some(Ok(())), file_exists: Some(true), removed: Some(Err("busy".to_string())) }
    );
    let mut save = SaveFacts::new();
    assert_eq!(save, SaveFacts { dir_ready: None, written: None });
    save.record(Answer::Exists(true));
    assert_eq!(save, SaveFacts { dir_ready: None, written: None });
    save.record(Answer::Outcome(Ok(())));
    save.record(Answer::Outcome(Err("full".to_string())));
    assert_eq!(save, SaveFacts { dir_ready: Some(Ok(())), written: Some(Err("full".to_string())) });
}
