//! The request to the core model: a graph of three nodes, and the conversation as JSON.

use crate::text::{push_underscored, underscored};
use vstd::prelude::*;

verus! {

/// What a node of the graph does.
#[derive(Debug)]
pub enum CoreOp {
    /// Takes in the text that is given under a name.
    Input { name: String },
    /// Lets a model continue a conversation.
    OllamaChat { model: String },
    /// Gives out a text under a name.
    Output { name: String },
}

/// A node: what it does, and how many texts go in and come out.
#[derive(Debug)]
pub struct CoreNode {
    pub op: CoreOp,
    pub inputs: usize,
    pub outputs: usize,
}

/// A text goes from a port of one node to a port of another.
#[derive(Debug, Clone, Copy, PartialEq, Eq, Structural)]
pub struct CoreEdge {
    pub from_node: usize,
    pub from_port: usize,
    pub to_node: usize,
    pub to_port: usize,
}

/// The graph that asks the core model.
#[derive(Debug)]
pub struct CoreGraph {
    pub name: String,
    pub nodes: Vec<CoreNode>,
    pub edges: Vec<CoreEdge>,
}

/// The graph, and the text that goes into its input.
#[derive(Debug)]
pub struct CoreRequest {
    pub graph: CoreGraph,
    pub prompt: String,
}

/// What running the graph gives: the text at the output, if there is one, and the number of
/// nodes that were run.
#[derive(Debug)]
pub struct CoreReply {
    pub answer: Option<String>,
    pub nodes_executed: usize,
}

impl CoreNode {
    /// A node that takes in the text under this name.
    pub open spec fn takes_in(self, name: Seq<char>) -> bool {
        &&& self.inputs == 0
        &&& self.outputs == 1
        &&& self.op matches CoreOp::Input { name: n } && n@ == name
    }

    /// A node that asks this model.
    pub open spec fn asks(self, model: Seq<char>) -> bool {
        &&& self.inputs == 1
        &&& self.outputs == 1
        &&& self.op matches CoreOp::OllamaChat { model: m } && m@ == model
    }

    /// A node that gives out the text under this name.
    pub open spec fn gives_out(self, name: Seq<char>) -> bool {
        &&& self.inputs == 1
        &&& self.outputs == 0
        &&& self.op matches CoreOp::Output { name: n } && n@ == name
    }
}

impl CoreGraph {
    /// The edge at position `e` leaves an output of one node and enters an input of a later one.
    pub open spec fn edge_fits(self, e: int) -> bool {
        let edge = self.edges@[e];
        &&& edge.from_node < edge.to_node < self.nodes@.len()
        &&& edge.from_port < self.nodes@[edge.from_node as int].outputs
        &&& edge.to_port < self.nodes@[edge.to_node as int].inputs
    }

    /// The graph asks this model: what goes in goes to the model, and what the model says comes
    /// out.
    pub open spec fn asks(self, model: Seq<char>) -> bool {
        &&& self.name@ == "hybrid_core_"@ + underscored(model)
        &&& self.nodes@.len() == 3
        &&& self.nodes@[0].takes_in("prompt"@)
        &&& self.nodes@[1].asks(model)
        &&& self.nodes@[2].gives_out("answer"@)
        &&& self.edges@ == seq![
            CoreEdge { from_node: 0, from_port: 0, to_node: 1, to_port: 0 },
            CoreEdge { from_node: 1, from_port: 0, to_node: 2, to_port: 0 },
        ]
    }
}

/// The graph that asks a model.
pub fn core_graph(model: &str) -> (r: CoreGraph)
    ensures
        r.asks(model@),
{
    let mut name: String = "hybrid_core_".to_owned();
    push_underscored(&mut name, model);
    let mut nodes: Vec<CoreNode> = Vec::new();
    nodes.push(
        CoreNode { op: CoreOp::Input { name: "prompt".to_owned() }, inputs: 0, outputs: 1 },
    );
    nodes.push(
        CoreNode { op: CoreOp::OllamaChat { model: model.to_owned() }, inputs: 1, outputs: 1 },
    );
    nodes.push(
        CoreNode { op: CoreOp::Output { name: "answer".to_owned() }, inputs: 1, outputs: 0 },
    );
    let mut edges: Vec<CoreEdge> = Vec::new();
    edges.push(CoreEdge { from_node: 0, from_port: 0, to_node: 1, to_port: 0 });
    edges.push(CoreEdge { from_node: 1, from_port: 0, to_node: 2, to_port: 0 });
    proof {
        assert(edges@ =~= seq![
            CoreEdge { from_node: 0, from_port: 0, to_node: 1, to_port: 0 },
            CoreEdge { from_node: 1, from_port: 0, to_node: 2, to_port: 0 },
        ]);
    }
    CoreGraph { name, nodes, edges }
}

/// Every edge of a graph that asks a model fits its nodes, and the edges run from the input to
/// the output.
pub proof fn law_core_graph_is_connected(graph: CoreGraph, model: Seq<char>)
    requires
        graph.asks(model),
    ensures
        forall|e: int| 0 <= e < graph.edges@.len() ==> #[trigger] graph.edge_fits(e),
        graph.edges@[0].from_node == 0,
        graph.edges@[0].to_node == graph.edges@[1].from_node,
        graph.edges@[1].to_node == graph.nodes@.len() - 1,
{
}

/// A message as the fields of a JSON object.
pub open spec fn message_fields(role: Seq<char>, content: Seq<char>) -> Seq<
    (Seq<char>, Seq<char>),
> {
    seq![("role"@, role), ("content"@, content)]
}

/// The conversation as JSON objects: what the system is told, if anything, then what the user
/// says.
pub open spec fn conversation(system: Option<Seq<char>>, user: Seq<char>) -> Seq<
    Seq<(Seq<char>, Seq<char>)>,
> {
    match system {
        Some(text) => seq![message_fields("system"@, text), message_fields("user"@, user)],
        None => seq![message_fields("user"@, user)],
    }
}

/// Fields with texts as values.
pub open spec fn fields_view(fields: Seq<(String, String)>) -> Seq<(Seq<char>, Seq<char>)> {
    fields.map_values(|f: (String, String)| (f.0@, f.1@))
}

/// Objects with texts as values.
pub open spec fn objects_view(objects: Seq<Vec<(String, String)>>) -> Seq<
    Seq<(Seq<char>, Seq<char>)>,
> {
    objects.map_values(|o: Vec<(String, String)>| fields_view(o@))
}

/// The text of a JSON array of objects whose values are strings.
pub uninterp spec fn json_array_text(objects: Seq<Seq<(Seq<char>, Seq<char>)>>) -> Seq<char>;

/// `serde_json::Value::to_string` of an array of objects whose values are strings: the text
/// depends on the fields of the objects alone. How a text is escaped, and in which order the
/// fields of an object are written, is left unsaid.
#[verifier::external_body]
fn json_text(objects: Vec<Vec<(String, String)>>) -> (r: String)
    ensures
        r@ == json_array_text(objects_view(objects@)),
{
    let object = |fields: Vec<(String, String)>| -> serde_json::Value {
        fields.into_iter().map(|(k, v)| (k, serde_json::Value::String(v))).collect()
    };
    serde_json::Value::Array(objects.into_iter().map(object).collect()).to_string()
}

fn message_object(role: &str, content: &str) -> (r: Vec<(String, String)>)
    ensures
        fields_view(r@) == message_fields(role@, content@),
{
    let mut fields: Vec<(String, String)> = Vec::new();
    fields.push(("role".to_owned(), role.to_owned()));
    fields.push(("content".to_owned(), content.to_owned()));
    proof {
        assert(fields_view(fields@) =~= message_fields(role@, content@));
    }
    fields
}

/// The messages of the conversation: what the system is told, if anything, then what the user
/// says.
pub fn chat_messages(system_prompt: Option<&str>, user_input: &str) -> (r: Vec<
    Vec<(String, String)>,
>)
    ensures
        objects_view(r@) == conversation(
            match system_prompt {
                Some(s) => Some(s@),
                None => None,
            },
            user_input@,
        ),
{
    let mut objects: Vec<Vec<(String, String)>> = Vec::new();
    match system_prompt {
        Some(s) => {
            objects.push(message_object("system", s));
            objects.push(message_object("user", user_input));
            proof {
                assert(objects_view(objects@) =~= conversation(Some(s@), user_input@));
            }
        },
        None => {
            objects.push(message_object("user", user_input));
            proof {
                assert(objects_view(objects@) =~= conversation(None, user_input@));
            }
        },
    }
    objects
}

/// The request that asks a model about what the user says.
pub fn core_request(model: &str, system_prompt: Option<&str>, user_input: &str) -> (r: CoreRequest)
    ensures
        r.graph.asks(model@),
        r.prompt@ == json_array_text(
            conversation(
                match system_prompt {
                    Some(s) => Some(s@),
                    None => None,
                },
                user_input@,
            ),
        ),
{
    CoreRequest {
        graph: core_graph(model),
        prompt: json_text(chat_messages(system_prompt, user_input)),
    }
}

/// The answer of the core, with a standing text where the graph gave none out.
pub open spec fn reply_text(reply: CoreReply) -> Seq<char> {
    match reply.answer {
        Some(text) => text@,
        None => "<empty core response>"@,
    }
}

impl CoreReply {
    /// The answer of the core, with a standing text where the graph gave none out.
    pub fn text(self) -> (r: String)
        ensures
            r@ == reply_text(self),
    {
        match self.answer {
            Some(text) => text,
            None => "<empty core response>".to_owned(),
        }
    }
}

} // verus!
