# forge_domain

The conversation model of an agent workflow, verified with Verus.

- `src/conversation_id.rs`: the conversation identifier (a UUID held as its
  128 bits), its text form and its parser, over the `uuid` crate.
- `src/agent.rs`, `src/event.rs`, `src/workflow.rs`: agents, events, commands
  and workflows as the conversation reads them.
- `src/table.rs`: a map from text keys to values, kept as entries with unique
  keys.
- `src/conversation.rs`: conversations: starting one from a workflow, which
  agents take an event, queuing, polling and dispatching events, variables.
- `src/laws.rs`: properties that relate several operations.
- `app/`: serializable copies of the types, with conversions.
