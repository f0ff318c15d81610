//! The conversation model of an agent workflow: which agents a conversation
//! holds, which events wait in each agent's queue, the conversation's
//! variables, and the identifier that names a conversation.

pub mod agent;
pub mod conversation;
pub mod conversation_id;
pub mod error;
pub mod event;
pub mod laws;
pub mod table;
pub mod workflow;

pub use conversation_id::ConversationId;
pub use error::DomainError;
