//! Taking a flow document in: from the text of its file to a flow that the
//! engine holds.
//!
//! The library does not touch the file system. The caller reads the file and
//! hands its text to `import_document`, or, for a file that the walk of the
//! flows directory found, to `import_found`.

use crate::document::{disabled, keeps_engine_parts, rekeyed, FlowDocument};
use crate::engine::{copy_graph, engine_flow, engine_message, parse_flow, parsed_flow};
use crate::error::{Invalid, IoStep, StoreError};
use crate::flow_name::{
    base_name_of, is_flow_file, is_flow_file_name, lemma_last_dot, name_for, name_of, stem_of,
};
use crate::text::trim;
use crate::walk::FoundFlow;
use agent_stream_kit::ASKit;
use vstd::prelude::*;

verus! {

/// Whether `name` is `base` made unique: `base` itself, or `base` with
/// something appended.
pub open spec fn made_unique(base: Seq<char>, name: Seq<char>) -> bool {
    name == base || (name.len() > base.len() && name.subrange(0, base.len() as int) == base)
}

/// What the outcome of a file of the walk is.
#[derive(Debug, PartialEq, Eq)]
pub enum WalkOutcome {
    /// The engine holds the flow under this name.
    Registered(String),
    /// The file was passed over; the walk goes on.
    Skipped(StoreError),
    /// The engine refused the flow; the walk ends.
    Aborted(StoreError),
}

/// Whether a path can be imported: it must be a file whose name carries the
/// flow extension. The test comes before the file is read.
pub fn check_flow_file(file_name: &str, is_file: bool) -> (r: Result<(), StoreError>)
    ensures
        r == if is_file && is_flow_file_name(file_name@) {
            Ok::<(), StoreError>(())
        } else {
            Err::<(), StoreError>(StoreError::Validation(Invalid::NotAFlowFile))
        },
{
    if is_file && is_flow_file(file_name) {
        Ok(())
    } else {
        Err(StoreError::Validation(Invalid::NotAFlowFile))
    }
}

/// Takes a parsed document in under the name that its file gives it: the
/// trimmed stem of the file name. The graph is copied under fresh
/// identifiers, so that no two imports share one.
///
/// `parsed` is what parsing the text of the file gave: the document, or the
/// message of the failure. Fails with a parse error of that message where
/// parsing failed, and with a validation error where the trimmed stem is
/// empty.
pub fn adopt_parsed(engine: &ASKit, file_name: &str, parsed: Result<FlowDocument, String>) -> (r:
    Result<FlowDocument, StoreError>)
    ensures
        match parsed {
            Err(message) => r == Err::<FlowDocument, StoreError>(StoreError::Parse(message)),
            Ok(doc) => if base_name_of(file_name@).len() == 0 {
                r == Err::<FlowDocument, StoreError>(StoreError::Validation(Invalid::EmptyName))
            } else {
                &&& r matches Ok(out)
                &&& out.name@ == base_name_of(file_name@)
                &&& rekeyed(doc@, out@)
                &&& out.extensions == doc.extensions
            },
        },
{
    match parsed {
        Err(message) => Err(StoreError::Parse(message)),
        Ok(doc) => {
            let base = trim(stem_of(file_name));
            if base.unicode_len() == 0 {
                return Err(StoreError::Validation(Invalid::EmptyName));
            }
            let (nodes, edges) = copy_graph(engine, &doc.nodes, &doc.edges);
            Ok(FlowDocument { name: String::from_str(base), nodes, edges, extensions: doc.extensions })
        },
    }
}

/// Imports the document that a file holds, given the name of the file,
/// whether it is a file at all, and its text.
///
/// Fails with a validation error unless the path is a file that carries the
/// flow extension; else with a parse error unless the text is a flow
/// document; else with a validation error where the trimmed stem of the file
/// name is empty. Otherwise the document comes back under that stem as its
/// name.
pub fn import_document(engine: &ASKit, file_name: &str, is_file: bool, content: &str) -> (r: Result<
    FlowDocument,
    StoreError,
>)
    ensures
        if !(is_file && is_flow_file_name(file_name@)) {
            r == Err::<FlowDocument, StoreError>(StoreError::Validation(Invalid::NotAFlowFile))
        } else if parsed_flow(content@) is None {
            r matches Err(StoreError::Parse(_))
        } else if base_name_of(file_name@).len() == 0 {
            r == Err::<FlowDocument, StoreError>(StoreError::Validation(Invalid::EmptyName))
        } else {
            &&& r matches Ok(doc)
            &&& doc.name@ == base_name_of(file_name@)
            &&& rekeyed(parsed_flow(content@)->0, doc@)
        },
{
    match check_flow_file(file_name, is_file) {
        Err(e) => Err(e),
        Ok(_) => {
            let parsed = match parse_flow(content) {
                Ok(doc) => Ok(doc),
                Err(e) => Err(engine_message(&e)),
            };
            adopt_parsed(engine, file_name, parsed)
        },
    }
}

/// The document as it is registered after the user chose its file: under the
/// given name, with all its nodes disabled.
pub fn for_user(doc: FlowDocument, name: String) -> (r: FlowDocument)
    ensures
        r.name == name,
        disabled(doc@, r@),
        keeps_engine_parts(doc, r),
{
    let mut out = doc;
    out.name = name;
    let n = out.nodes.len();
    let mut i: usize = 0;
    while i < n
        invariant
            i <= n,
            n == doc.nodes@.len(),
            out.nodes@.len() == n,
            out.name == name,
            out.edges == doc.edges,
            out.extensions == doc.extensions,
            forall|j: int|
                0 <= j < n ==> {
                    &&& (#[trigger] out.nodes@[j]).id == doc.nodes@[j].id
                    &&& out.nodes@[j].def_name == doc.nodes@[j].def_name
                    &&& out.nodes@[j].config == doc.nodes@[j].config
                    &&& out.nodes@[j].extensions == doc.nodes@[j].extensions
                },
            forall|j: int| 0 <= j < i ==> !(#[trigger] out.nodes@[j]).enabled,
        decreases n - i,
    {
        out.nodes[i].enabled = false;
        i += 1;
    }
    out
}

/// What an import of the user comes to, given the document that was handed
/// to the engine and the engine's answer: the document where the engine took
/// it, and the engine's refusal otherwise.
pub fn enlisted(doc: FlowDocument, answer: Result<(), String>) -> (r: Result<FlowDocument, StoreError>)
    ensures
        r == match answer {
            Ok(_) => Ok::<FlowDocument, StoreError>(doc),
            Err(refusal) => Err::<FlowDocument, StoreError>(StoreError::Engine(refusal)),
        },
{
    match answer {
        Ok(_) => Ok(doc),
        Err(refusal) => Err(StoreError::Engine(refusal)),
    }
}

/// What a file of the walk comes to, given the name under which its flow was
/// handed to the engine and the engine's answer: the flow is registered
/// where the engine took it, and the walk ends with the engine's refusal
/// otherwise.
pub fn walk_outcome(name: String, answer: Result<(), String>) -> (r: WalkOutcome)
    ensures
        r == match answer {
            Ok(_) => WalkOutcome::Registered(name),
            Err(refusal) => WalkOutcome::Aborted(StoreError::Engine(refusal)),
        },
{
    match answer {
        Ok(_) => WalkOutcome::Registered(name),
        Err(refusal) => WalkOutcome::Aborted(StoreError::Engine(refusal)),
    }
}

/// Takes in one file that the walk found, given what reading it gave: its
/// text, or the cause of the failure.
///
/// The file is passed over, and the walk goes on, where its name does not
/// carry the flow extension, where it could not be read, where its text is
/// no flow document, or where the trimmed stem of its name is empty.
/// Otherwise the flow is named by `name_of` from the file's name and the
/// name prefix of its directory, and handed to the engine: it is registered
/// under that name, or the engine refuses it and the walk ends.
pub fn import_found(engine: &ASKit, flow: &FoundFlow, content: &Result<String, String>) -> (r:
    WalkOutcome)
    ensures
        ({
            let file = if flow.path@.len() > 0 {
                flow.path@.last()@
            } else {
                Seq::<char>::empty()
            };
            if !is_flow_file_name(file) {
                r == WalkOutcome::Skipped(StoreError::Validation(Invalid::NotAFlowFile))
            } else {
                match *content {
                    Err(cause) => r == WalkOutcome::Skipped(StoreError::Io(IoStep::ReadFile, cause)),
                    Ok(text) => if parsed_flow(text@) is None {
                        r matches WalkOutcome::Skipped(StoreError::Parse(_))
                    } else if base_name_of(file).len() == 0 {
                        r == WalkOutcome::Skipped(StoreError::Validation(Invalid::EmptyName))
                    } else {
                        match r {
                            WalkOutcome::Registered(name) => name@ == name_of(file, flow.prefix@),
                            WalkOutcome::Aborted(e) => e matches StoreError::Engine(_),
                            WalkOutcome::Skipped(_) => false,
                        }
                    },
                }
            }
        }),
{
    let n = flow.path.len();
    if n == 0 {
        proof {
            lemma_last_dot(Seq::<char>::empty());
        }
        return WalkOutcome::Skipped(StoreError::Validation(Invalid::NotAFlowFile));
    }
    let file_name = flow.path[n - 1].as_str();
    match check_flow_file(file_name, true) {
        Err(e) => {
            return WalkOutcome::Skipped(e);
        },
        Ok(_) => {},
    }
    match content {
        Err(cause) => WalkOutcome::Skipped(StoreError::Io(IoStep::ReadFile, cause.clone())),
        Ok(text) => {
            match import_document(engine, file_name, true, text.as_str()) {
                Err(e) => WalkOutcome::Skipped(e),
                Ok(doc) => {
                    match name_for(file_name, flow.prefix.as_str()) {
                        Err(e) => WalkOutcome::Skipped(e),
                        Ok(name) => {
                            let mut named = doc;
                            named.name = name.clone();
                            let answer = match engine.add_agent_flow(&engine_flow(&named)) {
                                Ok(_) => Ok(()),
                                Err(e) => Err(engine_message(&e)),
                            };
                            walk_outcome(name, answer)
                        },
                    }
                },
            }
        },
    }
}

} // verus!
