//! The flow document as the library holds it.

use agent_stream_kit::{AgentConfig, AgentFlowEdge};
use std::collections::HashMap;
use vstd::prelude::*;

verus! {

/// A node of a flow: its identifier, the name of its definition, whether it
/// is enabled, and the configuration and extensions that the engine keeps
/// with it.
#[derive(Debug)]
pub struct FlowNode {
    pub id: String,
    pub def_name: String,
    pub enabled: bool,
    pub config: Option<AgentConfig>,
    pub extensions: HashMap<String, serde_json::Value>,
}

/// A flow document: a name, the nodes and edges of its graph, and what else
/// its file holds. The graph is the engine's to read; the library names,
/// copies and stores it.
#[derive(Debug)]
pub struct FlowDocument {
    pub name: String,
    pub nodes: Vec<FlowNode>,
    pub edges: Vec<AgentFlowEdge>,
    pub extensions: HashMap<String, serde_json::Value>,
}

/// What the library reads of a node: its identifier, the name of its
/// definition, and whether it is enabled.
pub ghost struct NodeFacts {
    pub id: Seq<char>,
    pub def_name: Seq<char>,
    pub enabled: bool,
}

/// What a flow document means to the library: its name, what the library
/// reads of its nodes, and how many edges it has. The edges themselves, the
/// configuration of the nodes and the extensions are the engine's own and
/// have no part in it.
pub ghost struct Graph {
    pub name: Seq<char>,
    pub nodes: Seq<NodeFacts>,
    pub edges: nat,
}

impl View for FlowNode {
    type V = NodeFacts;

    open spec fn view(&self) -> NodeFacts {
        NodeFacts { id: self.id@, def_name: self.def_name@, enabled: self.enabled }
    }
}

impl View for FlowDocument {
    type V = Graph;

    open spec fn view(&self) -> Graph {
        Graph {
            name: self.name@,
            nodes: Seq::new(self.nodes@.len(), |i: int| self.nodes@[i]@),
            edges: self.edges@.len(),
        }
    }
}

/// Whether the graph `after` can be a copy of the graph `before` under fresh
/// identifiers: it has one node for each node, in order, with the same
/// definition and the same enabled flag, and no more edges than `before`.
pub open spec fn rekeyed(before: Graph, after: Graph) -> bool {
    &&& after.nodes.len() == before.nodes.len()
    &&& forall|i: int|
        0 <= i < before.nodes.len() ==> (#[trigger] after.nodes[i]).def_name
            == before.nodes[i].def_name && after.nodes[i].enabled == before.nodes[i].enabled
    &&& after.edges <= before.edges
}

/// Whether the graph `after` is the graph `before` with every node disabled
/// and nothing else changed.
pub open spec fn disabled(before: Graph, after: Graph) -> bool {
    &&& after.nodes.len() == before.nodes.len()
    &&& forall|i: int|
        0 <= i < before.nodes.len() ==> (#[trigger] after.nodes[i]) == (NodeFacts {
            enabled: false,
            ..before.nodes[i]
        })
    &&& after.edges == before.edges
}

/// Whether `after` keeps what the engine holds in `before`: each node its
/// configuration and extensions, and the document its edges and extensions.
pub open spec fn keeps_engine_parts(before: FlowDocument, after: FlowDocument) -> bool {
    &&& after.nodes@.len() == before.nodes@.len()
    &&& forall|i: int|
        0 <= i < before.nodes@.len() ==> (#[trigger] after.nodes@[i]).config
            == before.nodes@[i].config && after.nodes@[i].extensions == before.nodes@[i].extensions
    &&& after.edges == before.edges
    &&& after.extensions == before.extensions
}

} // verus!
