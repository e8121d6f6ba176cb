//! What the library takes from the engine crate on trust.
//!
//! Nothing in this file is proved. Each item states what the engine's source
//! shows of one of its types or functions; the rest of the library is
//! verified against these statements.

use crate::document::{FlowDocument, FlowNode, Graph};
use crate::text::trimmed;
use agent_stream_kit::{
    ASKit, AgentConfig, AgentData, AgentError, AgentFlow, AgentFlowEdge, AgentFlowNode,
};
use vstd::prelude::*;

verus! {

/// The engine. Its state is its own.
#[verifier::external_type_specification]
#[verifier::external_body]
pub struct ExASKit(ASKit);

/// An error of the engine.
#[verifier::external_type_specification]
#[verifier::external_body]
pub struct ExAgentError(AgentError);

/// The configuration of one node, as the engine holds it.
#[verifier::external_type_specification]
#[verifier::external_body]
pub struct ExAgentConfig(AgentConfig);

/// The payload that an agent hands to the display.
#[verifier::external_type_specification]
#[verifier::external_body]
pub struct ExAgentData(AgentData);

/// A flow, as the engine holds it.
#[verifier::external_type_specification]
#[verifier::external_body]
pub struct ExAgentFlow(AgentFlow);

/// An edge of a flow, as the engine holds it.
#[verifier::external_type_specification]
#[verifier::external_body]
pub struct ExAgentFlowEdge(AgentFlowEdge);

/// A JSON value, as the engine keeps it in the fields that it does not read.
#[verifier::external_type_specification]
#[verifier::external_body]
pub struct ExValue(serde_json::Value);

/// What `AgentFlow::from_json` reads from a text: the name of the flow, the
/// identifier, definition and enabled flag of each node, and the number of
/// edges; or nothing, where the text is no flow document.
pub uninterp spec fn parsed_flow(content: Seq<char>) -> Option<Graph>;

/// `AgentFlow::from_json`, with the flow taken apart into a `FlowDocument`,
/// field for field. Whether it succeeds, and the name, the nodes and the
/// number of edges that it reads, depend on the text alone. Nothing is
/// claimed of the error, nor of what the document holds besides.
#[verifier::external_body]
pub(crate) fn parse_flow(content: &str) -> (r: Result<FlowDocument, AgentError>)
    ensures
        match r {
            Ok(doc) => parsed_flow(content@) == Some(doc@),
            Err(_) => parsed_flow(content@) is None,
        },
{
    let flow = AgentFlow::from_json(content)?;
    let nodes = flow.nodes().iter().cloned().map(
        |n| FlowNode { id: n.id, def_name: n.def_name, enabled: n.enabled, config: n.config, extensions: n.extensions },
    );
    Ok(
        FlowDocument {
            name: flow.name().to_string(),
            nodes: nodes.collect(),
            edges: flow.edges().clone(),
            extensions: flow.extensions,
        },
    )
}

/// `AgentFlow::new`, with `set_nodes` and `set_edges`: the flow of the engine
/// that is made of a document, field for field. Nothing is claimed of it:
/// the engine's flow is for the engine to read.
#[verifier::external_body]
pub(crate) fn engine_flow(doc: &FlowDocument) -> (r: AgentFlow) {
    let mut flow = AgentFlow::new(doc.name.clone());
    let nodes = doc.nodes.iter().map(
        |n| AgentFlowNode {
            id: n.id.clone(),
            def_name: n.def_name.clone(),
            enabled: n.enabled,
            config: n.config.clone(),
            extensions: n.extensions.clone(),
        },
    );
    flow.set_nodes(nodes.collect());
    flow.set_edges(doc.edges.clone());
    flow.extensions = doc.extensions.clone();
    flow
}

/// `to_string` on an `AgentError`: the text that the error displays as.
/// Nothing is claimed of it.
#[verifier::external_body]
pub(crate) fn engine_message(e: &AgentError) -> (r: String) {
    e.to_string()
}

/// `ASKit::copy_sub_flow` on the nodes and edges of a document. It gives
/// each node a copy under a fresh identifier, in order, and each edge whose
/// two ends are among the nodes a copy that joins the copies. Stated here:
/// there is one new node for each node, with the same definition and the
/// same enabled flag, and there are no more new edges than edges. The
/// identifiers come from a counter of the process, and nothing is claimed of
/// them.
#[verifier::external_body]
pub(crate) fn copy_graph(engine: &ASKit, nodes: &Vec<FlowNode>, edges: &Vec<AgentFlowEdge>) -> (r: (
    Vec<FlowNode>,
    Vec<AgentFlowEdge>,
))
    ensures
        r.0@.len() == nodes@.len(),
        forall|i: int|
            0 <= i < nodes@.len() ==> (#[trigger] r.0@[i]).def_name@ == nodes@[i].def_name@
                && r.0@[i].enabled == nodes@[i].enabled,
        r.1@.len() <= edges@.len(),
{
    let given: Vec<AgentFlowNode> = nodes.iter().map(
        |n| AgentFlowNode {
            id: n.id.clone(),
            def_name: n.def_name.clone(),
            enabled: n.enabled,
            config: n.config.clone(),
            extensions: n.extensions.clone(),
        },
    ).collect();
    let (copies, joined) = engine.copy_sub_flow(&given, edges);
    let copies = copies.into_iter().map(
        |n| FlowNode { id: n.id, def_name: n.def_name, enabled: n.enabled, config: n.config, extensions: n.extensions },
    );
    (copies.collect(), joined)
}

/// `AgentFlow::to_json` gives the text of a flow, or fails. Nothing is
/// claimed of the text: it depends on the order in which the flow's hash maps
/// are walked.
pub assume_specification[ AgentFlow::to_json ](flow: &AgentFlow) -> (r: Result<String, AgentError>)
;

/// `ASKit::add_agent_flow` takes a flow into the engine's table, or refuses
/// it. Which of the two depends on what the engine holds; nothing is claimed.
pub assume_specification[ ASKit::add_agent_flow ](engine: &ASKit, agent_flow: &AgentFlow) -> (r:
    Result<(), AgentError>)
;

/// `ASKit::unique_flow_name` returns the trimmed name where the engine has
/// no flow of that name, and else the name as given with a number appended.
/// Which of the two depends on what the engine holds.
pub assume_specification[ ASKit::unique_flow_name ](engine: &ASKit, name: &str) -> (r: String)
    ensures
        r@ == trimmed(name@) || (r@.len() > name@.len() && r@.subrange(0, name@.len() as int)
            == name@),
;

} // verus!
