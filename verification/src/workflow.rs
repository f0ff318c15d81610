use vstd::prelude::*;

use crate::agent::{Agent, AgentView, ModelId, Temperature, model_view, text_view};
use crate::table::Table;

verus! {

/// A value of a conversation variable, as `serde_json` holds it.
#[verifier::external_type_specification]
#[verifier::external_body]
pub struct ExJsonValue(serde_json::Value);

/// A command that the user can give; the main agent listens to it by its
/// name.
#[derive(Debug, Clone)]
pub struct Command {
    /// The command's name, which is also the name of its event.
    pub name: String,
    /// What the command does.
    pub description: String,
    /// The prompt the command sends, if any.
    pub prompt: Option<String>,
}

/// A command as plain values.
pub struct CommandView {
    pub name: Seq<char>,
    pub description: Seq<char>,
    pub prompt: Option<Seq<char>>,
}

impl View for Command {
    type V = CommandView;

    open spec fn view(&self) -> CommandView {
        CommandView { name: self.name@, description: self.description@, prompt: text_view(self.prompt) }
    }
}

/// The settings from which a conversation starts.
#[derive(Debug, Clone)]
pub struct Workflow {
    /// The agents of the conversation.
    pub agents: Vec<Agent>,
    /// The conversation's initial variables.
    pub variables: Table<serde_json::Value>,
    /// The commands that the main agent listens to.
    pub commands: Vec<Command>,
    /// The model every agent runs on, if set.
    pub model: Option<ModelId>,
    /// The walk depth of every agent, if set.
    pub max_walker_depth: Option<usize>,
    /// The rules of every agent, if set.
    pub custom_rules: Option<String>,
    /// The temperature of every agent, if set.
    pub temperature: Option<Temperature>,
}

/// A workflow as plain values.
pub struct WorkflowView {
    pub agents: Seq<AgentView>,
    pub variables: Map<Seq<char>, serde_json::Value>,
    pub commands: Seq<CommandView>,
    pub model: Option<Seq<char>>,
    pub max_walker_depth: Option<usize>,
    pub custom_rules: Option<Seq<char>>,
    pub temperature: Option<Temperature>,
}

impl View for Workflow {
    type V = WorkflowView;

    open spec fn view(&self) -> WorkflowView {
        WorkflowView {
            agents: self.agents@.map_values(|a: Agent| a@),
            variables: self.variables@,
            commands: self.commands@.map_values(|c: Command| c@),
            model: model_view(self.model),
            max_walker_depth: self.max_walker_depth,
            custom_rules: text_view(self.custom_rules),
            temperature: self.temperature,
        }
    }
}

} // verus!
