//! Creating, renaming and removing flow documents, with the engine's table
//! and the file tree kept in step.
//!
//! The library neither touches the file system nor waits for the engine. An
//! operation is a function from what is known so far to the next thing to
//! ask of the host, or to the result. The host starts with nothing known,
//! does what is asked, records what came of it, and asks again, until the
//! operation is done or has failed.

use crate::document::{FlowDocument, Graph};
use crate::engine::{engine_flow, engine_message, parsed_flow};
use crate::error::{Failure, Invalid, IoStep, StoreError};
use crate::flow_name::{
    base_name_of, file_stem, is_flow_file_name, path_for, path_of, valid_flow_name,
};
use crate::importer::{enlisted, for_user, import_document, made_unique};
use crate::text::{join, join_text, lemma_trimmed_twice, texts};
use agent_stream_kit::ASKit;
use vstd::prelude::*;

verus! {

/// The flow store of the application: the engine whose flows it keeps in
/// step with the file tree.
pub struct ASApp {
    askit: ASKit,
}

/// What the host is asked to do. Paths are lists of components below the
/// flows directory.
#[derive(Debug, PartialEq, Eq)]
pub enum Request {
    /// Report whether a file exists at the path.
    FileExists(Vec<String>),
    /// Have the engine rename the first flow to the second name.
    RenameInEngine(String, String),
    /// Have the engine drop the flow.
    RemoveFromEngine(String),
    /// Create the directory at the path, with its parents, unless it exists.
    EnsureDir(Vec<String>),
    /// Write the text to the file at the path, replacing what it held.
    WriteFile(Vec<String>, String),
    /// Delete the file at the path.
    RemoveFile(Vec<String>),
    /// Move the file at the first path to the second path.
    MoveFile(Vec<String>, Vec<String>),
}

/// Where an operation stands.
#[derive(Debug, PartialEq, Eq)]
pub enum Progress {
    /// The host is to do this, record what came of it, and ask again.
    Ask(Request),
    /// The operation is done. The text is the name of the flow after it.
    Done(String),
    /// The operation has failed.
    Failed(StoreError),
}

/// What a request means.
pub ghost enum Asked {
    FileExists(Seq<Seq<char>>),
    RenameInEngine(Seq<char>, Seq<char>),
    RemoveFromEngine(Seq<char>),
    EnsureDir(Seq<Seq<char>>),
    WriteFile(Seq<Seq<char>>, Seq<char>),
    RemoveFile(Seq<Seq<char>>),
    MoveFile(Seq<Seq<char>>, Seq<Seq<char>>),
}

/// What a state of progress means.
pub ghost enum Step {
    Ask(Asked),
    Done(Seq<char>),
    Failed(Failure),
}

impl View for Request {
    type V = Asked;

    open spec fn view(&self) -> Asked {
        match self {
            Request::FileExists(path) => Asked::FileExists(texts(path@)),
            Request::RenameInEngine(from, to) => Asked::RenameInEngine(from@, to@),
            Request::RemoveFromEngine(name) => Asked::RemoveFromEngine(name@),
            Request::EnsureDir(path) => Asked::EnsureDir(texts(path@)),
            Request::WriteFile(path, text) => Asked::WriteFile(texts(path@), text@),
            Request::RemoveFile(path) => Asked::RemoveFile(texts(path@)),
            Request::MoveFile(from, to) => Asked::MoveFile(texts(from@), texts(to@)),
        }
    }
}

impl View for Progress {
    type V = Step;

    open spec fn view(&self) -> Step {
        match self {
            Progress::Ask(request) => Step::Ask(request@),
            Progress::Done(name) => Step::Done(name@),
            Progress::Failed(e) => Step::Failed(e@),
        }
    }
}

/// Whether doing what is asked changes the engine's table or the file tree.
/// Only the question whether a file exists changes neither.
pub open spec fn changes_state(asked: Asked) -> bool {
    !(asked is FileExists)
}

/// What the host has learned in the course of a rename.
#[derive(Debug, PartialEq, Eq)]
pub struct RenameFacts {
    /// Whether a file exists at the path of the new name.
    pub target_exists: Option<bool>,
    /// What the engine said to the rename: nothing, or its refusal.
    pub engine: Option<Result<(), String>>,
    /// Whether a file exists at the path of the old name.
    pub source_exists: Option<bool>,
    /// What came of moving the file: nothing, or the cause of the failure.
    pub moved: Option<Result<(), String>>,
}

/// What the host has learned in the course of a removal.
#[derive(Debug, PartialEq, Eq)]
pub struct RemoveFacts {
    /// What the engine said to the removal: nothing, or its refusal.
    pub engine: Option<Result<(), String>>,
    /// Whether a file exists at the path of the flow.
    pub file_exists: Option<bool>,
    /// What came of deleting the file: nothing, or the cause of the failure.
    pub removed: Option<Result<(), String>>,
}

/// What the host has learned in the course of a save.
#[derive(Debug, PartialEq, Eq)]
pub struct SaveFacts {
    /// What came of creating the directory of the file.
    pub dir_ready: Option<Result<(), String>>,
    /// What came of writing the file.
    pub written: Option<Result<(), String>>,
}

/// What the host reports of a request that it has carried out.
#[derive(Debug, PartialEq, Eq)]
pub enum Answer {
    /// To the question whether a file exists: whether it does.
    Exists(bool),
    /// To anything else: that it was done, or why it was not.
    Outcome(Result<(), String>),
}

/// Whether the answer is of the kind that the request asks for.
pub open spec fn answers(asked: Asked, answer: Answer) -> bool {
    (asked is FileExists) == (answer is Exists)
}

/// The facts of a rename with one more answer. The answers come in the order
/// of the requests: whether the path of the new name is taken, what the
/// engine said, whether the old name has a file, what came of moving it. An
/// answer goes to the first of these that is still open, where it is of the
/// kind that belongs there; any other answer is passed over.
pub open spec fn rename_learned(facts: RenameFacts, answer: Answer) -> RenameFacts {
    if facts.target_exists is None {
        match answer {
            Answer::Exists(exists) => RenameFacts { target_exists: Some(exists), ..facts },
            _ => facts,
        }
    } else if facts.engine is None {
        match answer {
            Answer::Outcome(outcome) => RenameFacts { engine: Some(outcome), ..facts },
            _ => facts,
        }
    } else if facts.source_exists is None {
        match answer {
            Answer::Exists(exists) => RenameFacts { source_exists: Some(exists), ..facts },
            _ => facts,
        }
    } else if facts.moved is None {
        match answer {
            Answer::Outcome(outcome) => RenameFacts { moved: Some(outcome), ..facts },
            _ => facts,
        }
    } else {
        facts
    }
}

/// The facts of a removal with one more answer: what the engine said,
/// whether the flow has a file, what came of deleting it, in that order.
pub open spec fn remove_learned(facts: RemoveFacts, answer: Answer) -> RemoveFacts {
    if facts.engine is None {
        match answer {
            Answer::Outcome(outcome) => RemoveFacts { engine: Some(outcome), ..facts },
            _ => facts,
        }
    } else if facts.file_exists is None {
        match answer {
            Answer::Exists(exists) => RemoveFacts { file_exists: Some(exists), ..facts },
            _ => facts,
        }
    } else if facts.removed is None {
        match answer {
            Answer::Outcome(outcome) => RemoveFacts { removed: Some(outcome), ..facts },
            _ => facts,
        }
    } else {
        facts
    }
}

/// The facts of a save with one more answer: what came of creating the
/// directory, then what came of writing the file.
pub open spec fn save_learned(facts: SaveFacts, answer: Answer) -> SaveFacts {
    if facts.dir_ready is None {
        match answer {
            Answer::Outcome(outcome) => SaveFacts { dir_ready: Some(outcome), ..facts },
            _ => facts,
        }
    } else if facts.written is None {
        match answer {
            Answer::Outcome(outcome) => SaveFacts { written: Some(outcome), ..facts },
            _ => facts,
        }
    } else {
        facts
    }
}

/// How many answers a rename is still open for.
pub open spec fn rename_open(facts: RenameFacts) -> nat {
    (if facts.target_exists is None { 1nat } else { 0 }) + (if facts.engine is None { 1nat } else { 0 })
        + (if facts.source_exists is None { 1nat } else { 0 }) + (if facts.moved is None { 1nat } else { 0 })
}

/// How many answers a removal is still open for.
pub open spec fn remove_open(facts: RemoveFacts) -> nat {
    (if facts.engine is None { 1nat } else { 0 }) + (if facts.file_exists is None { 1nat } else { 0 })
        + (if facts.removed is None { 1nat } else { 0 })
}

/// How many answers a save is still open for.
pub open spec fn save_open(facts: SaveFacts) -> nat {
    (if facts.dir_ready is None { 1nat } else { 0 }) + (if facts.written is None { 1nat } else { 0 })
}

impl RenameFacts {
    /// Nothing learned yet.
    pub fn new() -> (r: RenameFacts)
        ensures
            r == (RenameFacts { target_exists: None, engine: None, source_exists: None, moved: None }),
    {
        RenameFacts { target_exists: None, engine: None, source_exists: None, moved: None }
    }

    /// Takes down the answer to the request that the rename made last.
    pub fn record(&mut self, answer: Answer)
        ensures
            *final(self) == rename_learned(*old(self), answer),
    {
        if self.target_exists.is_none() {
            if let Answer::Exists(exists) = answer {
                self.target_exists = Some(exists);
            }
        } else if self.engine.is_none() {
            if let Answer::Outcome(outcome) = answer {
                self.engine = Some(outcome);
            }
        } else if self.source_exists.is_none() {
            if let Answer::Exists(exists) = answer {
                self.source_exists = Some(exists);
            }
        } else if self.moved.is_none() {
            if let Answer::Outcome(outcome) = answer {
                self.moved = Some(outcome);
            }
        }
    }
}

impl RemoveFacts {
    /// Nothing learned yet.
    pub fn new() -> (r: RemoveFacts)
        ensures
            r == (RemoveFacts { engine: None, file_exists: None, removed: None }),
    {
        RemoveFacts { engine: None, file_exists: None, removed: None }
    }

    /// Takes down the answer to the request that the removal made last.
    pub fn record(&mut self, answer: Answer)
        ensures
            *final(self) == remove_learned(*old(self), answer),
    {
        if self.engine.is_none() {
            if let Answer::Outcome(outcome) = answer {
                self.engine = Some(outcome);
            }
        } else if self.file_exists.is_none() {
            if let Answer::Exists(exists) = answer {
                self.file_exists = Some(exists);
            }
        } else if self.removed.is_none() {
            if let Answer::Outcome(outcome) = answer {
                self.removed = Some(outcome);
            }
        }
    }
}

impl SaveFacts {
    /// Nothing learned yet.
    pub fn new() -> (r: SaveFacts)
        ensures
            r == (SaveFacts { dir_ready: None, written: None }),
    {
        SaveFacts { dir_ready: None, written: None }
    }

    /// Takes down the answer to the request that the save made last.
    pub fn record(&mut self, answer: Answer)
        ensures
            *final(self) == save_learned(*old(self), answer),
    {
        if self.dir_ready.is_none() {
            if let Answer::Outcome(outcome) = answer {
                self.dir_ready = Some(outcome);
            }
        } else if self.written.is_none() {
            if let Answer::Outcome(outcome) = answer {
                self.written = Some(outcome);
            }
        }
    }
}

/// Whether the graph `after` can be what an import of the user makes of the
/// graph `read` from the file: one node for each node, in order, with the
/// same definition and disabled; and no more edges than were read.
pub open spec fn taken_disabled(read: Graph, after: Graph) -> bool {
    &&& after.nodes.len() == read.nodes.len()
    &&& forall|i: int|
        0 <= i < read.nodes.len() ==> (#[trigger] after.nodes[i]).def_name == read.nodes[i].def_name
            && !after.nodes[i].enabled
    &&& after.edges <= read.edges
}

/// The path as one text, its components joined by `/`.
pub open spec fn path_text(path: Seq<Seq<char>>) -> Seq<char> {
    join(path, seq!['/'])
}

/// The next step of renaming the flow `old_name` to `new_name`.
///
/// Both names must be valid. Then the path of the new name must be free: a
/// file there ends the rename with a conflict, before anything is changed.
/// Then the engine renames its entry; its refusal ends the rename. Then the
/// file of the old name, if there is one, is moved to the path of the new
/// name. The rename returns the new name.
pub open spec fn rename_step(old_name: Seq<char>, new_name: Seq<char>, facts: RenameFacts) -> Step {
    if !valid_flow_name(new_name) || !valid_flow_name(old_name) {
        Step::Failed(Failure::Validation(Invalid::MalformedSegment))
    } else {
        match facts.target_exists {
            None => Step::Ask(Asked::FileExists(path_of(new_name))),
            Some(true) => Step::Failed(Failure::Conflict(path_text(path_of(new_name)))),
            Some(false) => match facts.engine {
                None => Step::Ask(Asked::RenameInEngine(old_name, new_name)),
                Some(Err(refusal)) => Step::Failed(Failure::Engine(refusal@)),
                Some(Ok(_)) => match facts.source_exists {
                    None => Step::Ask(Asked::FileExists(path_of(old_name))),
                    Some(false) => Step::Done(new_name),
                    Some(true) => match facts.moved {
                        None => Step::Ask(Asked::MoveFile(path_of(old_name), path_of(new_name))),
                        Some(Err(cause)) => Step::Failed(Failure::Io(IoStep::MoveFile, cause@)),
                        Some(Ok(_)) => Step::Done(new_name),
                    },
                },
            },
        }
    }
}

/// The next step of removing the flow `name`.
///
/// The name must be valid. Then the engine drops its entry; its refusal ends
/// the removal, and the file is not touched. Then the file of the flow, if
/// there is one, is deleted; a failure there is reported, with the engine's
/// entry gone.
pub open spec fn remove_step(name: Seq<char>, facts: RemoveFacts) -> Step {
    if !valid_flow_name(name) {
        Step::Failed(Failure::Validation(Invalid::MalformedSegment))
    } else {
        match facts.engine {
            None => Step::Ask(Asked::RemoveFromEngine(name)),
            Some(Err(refusal)) => Step::Failed(Failure::Engine(refusal@)),
            Some(Ok(_)) => match facts.file_exists {
                None => Step::Ask(Asked::FileExists(path_of(name))),
                Some(false) => Step::Done(name),
                Some(true) => match facts.removed {
                    None => Step::Ask(Asked::RemoveFile(path_of(name))),
                    Some(Err(cause)) => Step::Failed(Failure::Io(IoStep::RemoveFile, cause@)),
                    Some(Ok(_)) => Step::Done(name),
                },
            },
        }
    }
}

/// The next step of saving a flow under `name`, but for the step that
/// writes the file, which needs the text of the document.
pub open spec fn save_step(name: Seq<char>, facts: SaveFacts) -> Option<Step> {
    if !valid_flow_name(name) {
        Some(Step::Failed(Failure::Validation(Invalid::MalformedSegment)))
    } else {
        match facts.dir_ready {
            None => Some(Step::Ask(Asked::EnsureDir(path_of(name).drop_last()))),
            Some(Err(cause)) => Some(Step::Failed(Failure::Io(IoStep::CreateParentDir, cause@))),
            Some(Ok(_)) => match facts.written {
                None => None,
                Some(Err(cause)) => Some(Step::Failed(Failure::Io(IoStep::WriteFile, cause@))),
                Some(Ok(_)) => Some(Step::Done(name)),
            },
        }
    }
}

/// The step of a save that writes the file, given what serialising the
/// document gave: the file is written with the text, whole; or the save fails
/// with the message of the engine crate.
pub open spec fn write_step(path: Seq<Seq<char>>, text: Result<String, String>) -> Step {
    match text {
        Ok(text) => Step::Ask(Asked::WriteFile(path, text@)),
        Err(message) => Step::Failed(Failure::Parse(message@)),
    }
}

/// As long as the host has not reported the path of the new name free, a
/// rename asks for nothing that changes the engine's table or the file tree,
/// and does not succeed. Once a file is reported there, it has failed: with
/// a conflict where both names are valid.
pub proof fn lemma_rename_conflict(old_name: Seq<char>, new_name: Seq<char>, facts: RenameFacts)
    requires
        facts.target_exists != Some(false),
    ensures
        match rename_step(old_name, new_name, facts) {
            Step::Ask(asked) => !changes_state(asked),
            Step::Done(_) => false,
            Step::Failed(_) => true,
        },
        facts.target_exists == Some(true) ==> rename_step(old_name, new_name, facts) is Failed,
        facts.target_exists == Some(true) && valid_flow_name(old_name) && valid_flow_name(new_name)
            ==> rename_step(old_name, new_name, facts) == Step::Failed(
            Failure::Conflict(path_text(path_of(new_name))),
        ),
{
}

/// Until the engine has dropped its entry, a removal asks for nothing that
/// touches the file tree. Once the engine has refused, the removal has
/// failed, whatever else the host reports.
pub proof fn lemma_remove_refused(name: Seq<char>, facts: RemoveFacts)
    requires
        !(facts.engine matches Some(Ok(_))),
    ensures
        match remove_step(name, facts) {
            Step::Ask(asked) => asked is RemoveFromEngine,
            Step::Done(_) => false,
            Step::Failed(_) => true,
        },
        facts.engine is Some ==> remove_step(name, facts) is Failed,
{
}

/// What a rename knows after the host has given these answers, in order,
/// starting from nothing.
pub open spec fn rename_facts_after(given: Seq<Answer>) -> RenameFacts
    decreases given.len(),
{
    if given.len() == 0 {
        RenameFacts { target_exists: None, engine: None, source_exists: None, moved: None }
    } else {
        rename_learned(rename_facts_after(given.drop_last()), given.last())
    }
}

/// A rename whose first answer is that the path of the new name is taken has
/// failed, whatever the host answers after that: with a conflict where both
/// names are valid.
pub proof fn lemma_rename_conflict_stays(old_name: Seq<char>, new_name: Seq<char>, given: Seq<Answer>)
    requires
        given.len() > 0,
        given[0] == Answer::Exists(true),
    ensures
        rename_facts_after(given).target_exists == Some(true),
        rename_step(old_name, new_name, rename_facts_after(given)) is Failed,
        valid_flow_name(old_name) && valid_flow_name(new_name) ==> rename_step(
            old_name,
            new_name,
            rename_facts_after(given),
        ) == Step::Failed(Failure::Conflict(path_text(path_of(new_name)))),
    decreases given.len(),
{
    let before = given.drop_last();
    if before.len() == 0 {
        assert(rename_facts_after(before).target_exists is None);
        assert(given.last() == given[0]);
    } else {
        assert(before[0] == given[0]);
        lemma_rename_conflict_stays(old_name, new_name, before);
    }
}

/// An answer of the kind that a rename asked for closes one of the answers
/// that the rename is open for: a host that answers what it is asked is
/// asked at most four times.
pub proof fn lemma_rename_advances(
    old_name: Seq<char>,
    new_name: Seq<char>,
    facts: RenameFacts,
    answer: Answer,
)
    requires
        rename_step(old_name, new_name, facts) matches Step::Ask(asked) && answers(asked, answer),
    ensures
        rename_open(rename_learned(facts, answer)) + 1 == rename_open(facts),
{
}

/// An answer of the kind that a removal asked for closes one of the answers
/// that the removal is open for.
pub proof fn lemma_remove_advances(name: Seq<char>, facts: RemoveFacts, answer: Answer)
    requires
        remove_step(name, facts) matches Step::Ask(asked) && answers(asked, answer),
    ensures
        remove_open(remove_learned(facts, answer)) + 1 == remove_open(facts),
{
}

/// An answer to what a save asked for closes one of the answers that the
/// save is open for.
pub proof fn lemma_save_advances(name: Seq<char>, facts: SaveFacts, answer: Answer)
    requires
        answer is Outcome,
        save_step(name, facts) is None || save_step(name, facts) matches Some(Step::Ask(_)),
    ensures
        save_open(save_learned(facts, answer)) + 1 == save_open(facts),
{
}

/// The step of a save that writes the file, given what serialising the
/// document gave.
pub fn write_request(path: Vec<String>, text: Result<String, String>) -> (r: Progress)
    ensures
        r@ == write_step(texts(path@), text),
{
    match text {
        Ok(text) => Progress::Ask(Request::WriteFile(path, text)),
        Err(message) => Progress::Failed(StoreError::Parse(message)),
    }
}

impl ASApp {
    /// The engine that the store works for.
    pub closed spec fn engine(&self) -> ASKit {
        self.askit
    }

    /// The flow store of an engine.
    pub fn new(askit: ASKit) -> (r: ASApp)
        ensures
            r.engine() == askit,
    {
        ASApp { askit }
    }

    /// The engine that the store works for.
    pub fn askit(&self) -> (r: &ASKit)
        ensures
            *r == self.engine(),
    {
        &self.askit
    }

    /// The next step of renaming the flow `old_name` to `new_name`, given what
    /// the host has learned so far.
    pub fn rename_agent_flow(&self, old_name: &str, new_name: &str, facts: &RenameFacts) -> (r:
        Progress)
        ensures
            r@ == rename_step(old_name@, new_name@, *facts),
    {
        let new_path = match path_for(new_name) {
            Ok(path) => path,
            Err(e) => {
                return Progress::Failed(e);
            },
        };
        let old_path = match path_for(old_name) {
            Ok(path) => path,
            Err(e) => {
                return Progress::Failed(e);
            },
        };
        proof {
            reveal_strlit("/");
            assert("/"@ =~= seq!['/']);
        }
        match facts.target_exists {
            None => Progress::Ask(Request::FileExists(new_path)),
            Some(true) => Progress::Failed(StoreError::Conflict(join_text(&new_path, "/"))),
            Some(false) => match &facts.engine {
                None => Progress::Ask(
                    Request::RenameInEngine(String::from_str(old_name), String::from_str(new_name)),
                ),
                Some(Err(refusal)) => Progress::Failed(StoreError::Engine(refusal.clone())),
                Some(Ok(_)) => match facts.source_exists {
                    None => Progress::Ask(Request::FileExists(old_path)),
                    Some(false) => Progress::Done(String::from_str(new_name)),
                    Some(true) => match &facts.moved {
                        None => Progress::Ask(Request::MoveFile(old_path, new_path)),
                        Some(Err(cause)) => Progress::Failed(
                            StoreError::Io(IoStep::MoveFile, cause.clone()),
                        ),
                        Some(Ok(_)) => Progress::Done(String::from_str(new_name)),
                    },
                },
            },
        }
    }

    /// The next step of removing the flow `name`, given what the host has
    /// learned so far.
    pub fn remove_agent_flow(&self, name: &str, facts: &RemoveFacts) -> (r: Progress)
        ensures
            r@ == remove_step(name@, *facts),
    {
        let path = match path_for(name) {
            Ok(path) => path,
            Err(e) => {
                return Progress::Failed(e);
            },
        };
        match &facts.engine {
            None => Progress::Ask(Request::RemoveFromEngine(String::from_str(name))),
            Some(Err(refusal)) => Progress::Failed(StoreError::Engine(refusal.clone())),
            Some(Ok(_)) => match facts.file_exists {
                None => Progress::Ask(Request::FileExists(path)),
                Some(false) => Progress::Done(String::from_str(name)),
                Some(true) => match &facts.removed {
                    None => Progress::Ask(Request::RemoveFile(path)),
                    Some(Err(cause)) => Progress::Failed(StoreError::Io(IoStep::RemoveFile, cause.clone())),
                    Some(Ok(_)) => Progress::Done(String::from_str(name)),
                },
            },
        }
    }

    /// The next step of saving the document, given what the host has learned so
    /// far.
    ///
    /// The name of the document must be valid. Then the directory of its file
    /// is created where missing. Then the document is serialised, and the file
    /// is written with the text, whole. A failure of a step ends the save with
    /// that step named.
    pub fn save_agent_flow(&self, agent_flow: &FlowDocument, facts: &SaveFacts) -> (r: Progress)
        ensures
            match save_step(agent_flow.name@, *facts) {
                Some(step) => r@ == step,
                None => match r@ {
                    Step::Ask(Asked::WriteFile(path, _)) => path == path_of(agent_flow.name@),
                    Step::Failed(Failure::Parse(_)) => true,
                    _ => false,
                },
            },
    {
        let path = match path_for(agent_flow.name.as_str()) {
            Ok(path) => path,
            Err(e) => {
                return Progress::Failed(e);
            },
        };
        match &facts.dir_ready {
            None => {
                let mut dir = path;
                let ghost whole = texts(dir@);
                dir.pop();
                assert(texts(dir@) =~= whole.drop_last());
                Progress::Ask(Request::EnsureDir(dir))
            },
            Some(Err(cause)) => Progress::Failed(StoreError::Io(IoStep::CreateParentDir, cause.clone())),
            Some(Ok(_)) => match &facts.written {
                None => {
                    let text = match engine_flow(agent_flow).to_json() {
                        Ok(text) => Ok(text),
                        Err(e) => Err(engine_message(&e)),
                    };
                    write_request(path, text)
                },
                Some(Err(cause)) => Progress::Failed(StoreError::Io(IoStep::WriteFile, cause.clone())),
                Some(Ok(_)) => Progress::Done(agent_flow.name.clone()),
            },
        }
    }

    /// Imports a file that the user chose, given the name of the file, whether
    /// it is a file at all, and its text: the document is imported as by
    /// `import_document`, named so that the engine has no flow of that name,
    /// and registered with all its nodes disabled.
    ///
    /// Fails as `import_document` does, and with the engine's message where
    /// the engine refuses the flow.
    pub fn import_agent_flow(&self, file_name: &str, is_file: bool, content: &str) -> (r: Result<
        FlowDocument,
        StoreError,
    >)
        ensures
            if !(is_file && is_flow_file_name(file_name@)) {
                r == Err::<FlowDocument, StoreError>(StoreError::Validation(Invalid::NotAFlowFile))
            } else if parsed_flow(content@) is None {
                r matches Err(StoreError::Parse(_))
            } else if base_name_of(file_name@).len() == 0 {
                r == Err::<FlowDocument, StoreError>(StoreError::Validation(Invalid::EmptyName))
            } else {
                match r {
                    Ok(doc) => {
                        &&& made_unique(base_name_of(file_name@), doc.name@)
                        &&& taken_disabled(parsed_flow(content@)->0, doc@)
                    },
                    Err(e) => e matches StoreError::Engine(_),
                }
            },
    {
        match import_document(&self.askit, file_name, is_file, content) {
            Err(e) => Err(e),
            Ok(doc) => {
                let name = self.askit.unique_flow_name(doc.name.as_str());
                proof {
                    lemma_trimmed_twice(file_stem(file_name@));
                }
                let named = for_user(doc, name);
                let answer = match self.askit.add_agent_flow(&engine_flow(&named)) {
                    Ok(_) => Ok(()),
                    Err(e) => Err(engine_message(&e)),
                };
                enlisted(named, answer)
            },
        }
    }
}

} // verus!
