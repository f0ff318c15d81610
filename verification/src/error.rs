use vstd::prelude::*;

use crate::agent::AgentId;

verus! {

/// The failure of a parse of an identifier, as the `uuid` crate reports it.
#[verifier::external_type_specification]
#[verifier::external_body]
pub struct ExUuidError(uuid::Error);

/// The errors that the conversation model reports.
#[derive(Debug)]
pub enum DomainError {
    /// A conversation identifier could not be read from its text.
    ConversationId(uuid::Error),
    /// No agent of the conversation has the name asked for.
    AgentUndefined(AgentId),
}

} // verus!
