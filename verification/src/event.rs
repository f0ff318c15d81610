use vstd::prelude::*;

verus! {

/// Something that happened in a conversation, which agents may listen to
/// by its name.
#[derive(Debug)]
pub struct Event {
    /// The event's own identifier.
    pub id: String,
    /// The name by which agents subscribe to the event.
    pub name: String,
    /// What the event carries.
    pub value: String,
    /// When the event happened, as text.
    pub timestamp: String,
}

impl Clone for Event {
    fn clone(&self) -> (r: Self)
        ensures
            r == *self,
    {
        Event {
            id: self.id.clone(),
            name: self.name.clone(),
            value: self.value.clone(),
            timestamp: self.timestamp.clone(),
        }
    }
}

/// What an agent has said and heard so far, as the texts of its messages.
/// The conversation model keeps it for each agent and hands it out; it
/// never reads it.
#[derive(Debug, Clone)]
pub struct Context {
    /// The texts of the messages, oldest first.
    pub messages: Vec<String>,
}

} // verus!
