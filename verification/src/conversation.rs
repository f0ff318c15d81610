use std::collections::VecDeque;
use vstd::prelude::*;

use crate::agent::{Agent, AgentId, AgentView, texts, clone_strings, contains_text};
use crate::conversation_id::ConversationId;
use crate::error::DomainError;
use crate::event::{Context, Event};
use crate::table::{Table, lemma_entry_in_map};
use crate::workflow::{Command, CommandView, Workflow, WorkflowView};

verus! {

/// What the conversation keeps for one agent.
#[derive(Debug, Clone)]
pub struct AgentState {
    /// How many turns the agent has taken.
    pub turn_count: u64,
    /// What the agent has said and heard, once it has started.
    pub context: Option<Context>,
    /// holds the events that are waiting to be processed
    pub queue: VecDeque<Event>,
}

/// An agent's state as plain values.
pub struct AgentStateView {
    pub turn_count: u64,
    pub context: Option<Context>,
    pub queue: Seq<Event>,
}

impl View for AgentState {
    type V = AgentStateView;

    open spec fn view(&self) -> AgentStateView {
        AgentStateView { turn_count: self.turn_count, context: self.context, queue: self.queue@ }
    }
}

/// The state of an agent that has not taken a turn nor received an event.
pub open spec fn fresh_state() -> AgentStateView {
    AgentStateView { turn_count: 0, context: None, queue: Seq::empty() }
}

impl Default for AgentState {
    fn default() -> (s: Self)
        ensures
            s@ == fresh_state(),
    {
        AgentState { turn_count: 0, context: None, queue: VecDeque::new() }
    }
}

/// A conversation: its agents, the state of each agent that has been
/// reached, its variables, and every event inserted into it.
#[derive(Debug, Clone)]
pub struct Conversation {
    /// The conversation's identifier.
    pub id: ConversationId,
    /// Whether the conversation has been put away.
    pub archived: bool,
    /// The state of each agent that has been reached, by agent name.
    pub state: Table<AgentState>,
    /// The conversation's variables, by name.
    pub variables: Table<serde_json::Value>,
    /// The conversation's agents.
    pub agents: Vec<Agent>,
    /// Every event inserted, oldest first.
    pub events: Vec<Event>,
}

/// A conversation as plain values.
pub struct ConversationView {
    pub id: ConversationId,
    pub archived: bool,
    pub state: Map<Seq<char>, AgentStateView>,
    pub variables: Map<Seq<char>, serde_json::Value>,
    pub agents: Seq<AgentView>,
    pub events: Seq<Event>,
}

/// The views of the states in a table of agent states.
pub open spec fn states_view(m: Map<Seq<char>, AgentState>) -> Map<Seq<char>, AgentStateView> {
    m.map_values(|s: AgentState| s@)
}

impl View for Conversation {
    type V = ConversationView;

    open spec fn view(&self) -> ConversationView {
        ConversationView {
            id: self.id,
            archived: self.archived,
            state: states_view(self.state@),
            variables: self.variables@,
            agents: self.agents@.map_values(|a: Agent| a@),
            events: self.events@,
        }
    }
}

/// The name of the agent that also listens to the workflow's commands.
pub open spec fn main_agent_name() -> Seq<char> {
    Conversation::MAIN_AGENT_NAME@
}

/// The names of a list of commands.
pub open spec fn command_names(cs: Seq<CommandView>) -> Seq<Seq<char>> {
    cs.map_values(|c: CommandView| c.name)
}

/// A workflow-wide setting where it is set, else the agent's own.
pub open spec fn override_with<T>(setting: Option<T>, own: Option<T>) -> Option<T> {
    if setting is Some {
        setting
    } else {
        own
    }
}

/// An agent as a conversation started from workflow `w` holds it: the
/// workflow's model, walk depth, rules and temperature take the place of the
/// agent's own where the workflow sets them, and the main agent listens to
/// the workflow's commands after the events it listened to before.
pub open spec fn configured(w: WorkflowView, a: AgentView) -> AgentView {
    AgentView {
        id: a.id,
        model: override_with(w.model, a.model),
        subscribe: if a.id == main_agent_name() {
            Some(
                match a.subscribe {
                    Some(s) => s,
                    None => Seq::empty(),
                } + command_names(w.commands),
            )
        } else {
            a.subscribe
        },
        max_turns: a.max_turns,
        max_walker_depth: override_with(w.max_walker_depth, a.max_walker_depth),
        custom_rules: override_with(w.custom_rules, a.custom_rules),
        temperature: override_with(w.temperature, a.temperature),
        disable: a.disable,
    }
}

/// The conversation that starts from workflow `w` under identifier `id`.
pub open spec fn started(id: ConversationId, w: WorkflowView) -> ConversationView {
    ConversationView {
        id,
        archived: false,
        state: Map::empty(),
        variables: w.variables,
        agents: w.agents.map_values(|a: AgentView| configured(w, a)),
        events: Seq::empty(),
    }
}

/// How many turns the agent with this name has taken, if it has a state.
pub open spec fn turns_taken(state: Map<Seq<char>, AgentStateView>, id: Seq<char>) -> Option<u64> {
    if state.contains_key(id) {
        Some(state[id].turn_count)
    } else {
        None
    }
}

/// Whether an agent takes events named `name`: it is not disabled, it has
/// taken fewer turns than its limit (no limit counts as `u64::MAX`, no state
/// as no turn), and it subscribes to the name.
pub open spec fn listens(state: Map<Seq<char>, AgentStateView>, a: AgentView, name: Seq<char>) -> bool {
    &&& a.disable != Some(true)
    &&& (match turns_taken(state, a.id) {
        Some(t) => t,
        None => 0,
    }) < (match a.max_turns {
        Some(m) => m,
        None => u64::MAX,
    })
    &&& a.subscribe matches Some(s) && s.contains(name)
}

/// The agents of `c` that take events named `name`, in the conversation's
/// order.
pub open spec fn subscribers(c: ConversationView, name: Seq<char>) -> Seq<AgentView> {
    c.agents.filter(|a: AgentView| listens(c.state, a, name))
}

/// The names of a list of agents.
pub open spec fn agent_ids(s: Seq<AgentView>) -> Seq<Seq<char>> {
    s.map_values(|a: AgentView| a.id)
}

/// How often `k` occurs in a list.
pub open spec fn occurrences<A>(ids: Seq<A>, k: A) -> nat
    decreases ids.len(),
{
    if ids.len() == 0 {
        0
    } else {
        occurrences(ids.drop_last(), k) + if ids.last() == k {
            1nat
        } else {
            0nat
        }
    }
}

/// The agent's state, or the state of an agent that has none yet.
pub open spec fn state_or_fresh(state: Map<Seq<char>, AgentStateView>, k: Seq<char>) -> AgentStateView {
    if state.contains_key(k) {
        state[k]
    } else {
        fresh_state()
    }
}

/// The states after event `e` is put at the back of the queue of each agent
/// named in `ids`, once for each time it is named; an agent without a state
/// gets a fresh one first.
pub open spec fn enqueued(state: Map<Seq<char>, AgentStateView>, ids: Seq<Seq<char>>, e: Event) -> Map<
    Seq<char>,
    AgentStateView,
> {
    Map::new(
        |k: Seq<char>| state.contains_key(k) || occurrences(ids, k) > 0,
        |k: Seq<char>|
            AgentStateView {
                turn_count: state_or_fresh(state, k).turn_count,
                context: state_or_fresh(state, k).context,
                queue: state_or_fresh(state, k).queue + Seq::new(occurrences(ids, k), |_i: int| e),
            },
    )
}

/// The states after event `e` is put at the back of the queue of agent `k`.
pub open spec fn enqueue_one(state: Map<Seq<char>, AgentStateView>, k: Seq<char>, e: Event) -> Map<
    Seq<char>,
    AgentStateView,
> {
    state.insert(
        k,
        AgentStateView {
            turn_count: state_or_fresh(state, k).turn_count,
            context: state_or_fresh(state, k).context,
            queue: state_or_fresh(state, k).queue.push(e),
        },
    )
}

/// Putting the event for one more name is putting it once more for that name.
pub proof fn lemma_enqueued_push(state: Map<Seq<char>, AgentStateView>, ids: Seq<Seq<char>>, x: Seq<char>, e: Event)
    ensures
        enqueued(state, ids.push(x), e) == enqueue_one(enqueued(state, ids, e), x, e),
{
    let ids2 = ids.push(x);
    assert(ids2.drop_last() =~= ids);
    assert forall|k: Seq<char>| occurrences(ids2, k) == occurrences(ids, k) + (if k == x { 1nat } else { 0nat }) by {
        assert(ids2.drop_last() =~= ids);
    }
    let lhs = enqueued(state, ids2, e);
    let rhs = enqueue_one(enqueued(state, ids, e), x, e);
    assert forall|k: Seq<char>| #[trigger] lhs.contains_key(k) == rhs.contains_key(k) by {}
    assert forall|k: Seq<char>| lhs.contains_key(k) implies #[trigger] lhs[k] == rhs[k] by {
        if k == x {
            let n = occurrences(ids, k);
            let s = state_or_fresh(state, k);
            assert(Seq::new(n + 1, |_i: int| e) =~= Seq::new(n, |_i: int| e).push(e));
            assert(s.queue + Seq::new(n + 1, |_i: int| e) =~= (s.queue + Seq::new(n, |_i: int| e)).push(e));
        }
    }
    assert(lhs =~= rhs);
}

/// Putting the event for no name changes no state.
pub proof fn lemma_enqueued_none(state: Map<Seq<char>, AgentStateView>, ids: Seq<Seq<char>>, e: Event)
    requires
        ids.len() == 0,
    ensures
        enqueued(state, ids, e) == state,
{
    let m = enqueued(state, ids, e);
    assert forall|k: Seq<char>| state.contains_key(k) implies #[trigger] m[k] == state[k] by {
        assert(state[k].queue + Seq::new(0, |_i: int| e) =~= state[k].queue);
    }
    assert(m =~= state);
}

/// The conversation after event `e` is inserted: the event joins the log,
/// and it is put in the queue of each agent that takes it.
pub open spec fn with_event(c: ConversationView, e: Event) -> ConversationView {
    ConversationView {
        id: c.id,
        archived: c.archived,
        state: enqueued(c.state, agent_ids(subscribers(c, e.name@)), e),
        variables: c.variables,
        agents: c.agents,
        events: c.events.push(e),
    }
}

/// Whether agent `k` has no event waiting (or no state at all).
pub open spec fn is_idle(state: Map<Seq<char>, AgentStateView>, k: Seq<char>) -> bool {
    !state.contains_key(k) || state[k].queue.len() == 0
}

/// The names of the agents that take events named `name` and have none
/// waiting, in the conversation's order.
pub open spec fn activated(c: ConversationView, name: Seq<char>) -> Seq<Seq<char>> {
    agent_ids(subscribers(c, name)).filter(|k: Seq<char>| is_idle(c.state, k))
}

/// The event that agent `k` would take next, if one waits for it.
pub open spec fn next_event(c: ConversationView, k: Seq<char>) -> Option<Event> {
    if c.state.contains_key(k) && c.state[k].queue.len() > 0 {
        Some(c.state[k].queue[0])
    } else {
        None
    }
}

/// The conversation after agent `k` takes its next event, if one waits.
pub open spec fn polled(c: ConversationView, k: Seq<char>) -> ConversationView {
    if next_event(c, k) is Some {
        ConversationView {
            state: c.state.insert(
                k,
                AgentStateView {
                    turn_count: c.state[k].turn_count,
                    context: c.state[k].context,
                    queue: c.state[k].queue.drop_first(),
                },
            ),
            ..c
        }
    } else {
        c
    }
}

/// Whether `e` stands in some agent's queue with no event named `name`
/// behind it.
pub open spec fn is_last_in_some_queue(state: Map<Seq<char>, AgentStateView>, name: Seq<char>, e: Event) -> bool {
    exists|k: Seq<char>, j: int|
        #![trigger state[k].queue[j]]
        state.contains_key(k) && 0 <= j < state[k].queue.len() && state[k].queue[j] == e
            && forall|j2: int| j < j2 < state[k].queue.len() ==> (#[trigger] state[k].queue[j2]).name@ != name
}

/// Whether some agent's queue holds an event with this name.
pub open spec fn some_queue_holds(state: Map<Seq<char>, AgentStateView>, name: Seq<char>) -> bool {
    exists|k: Seq<char>, j: int|
        #![trigger state[k].queue[j]]
        state.contains_key(k) && 0 <= j < state[k].queue.len() && state[k].queue[j].name@ == name
}

/// Whether position `i` holds the first agent with this name.
pub open spec fn first_agent_with(agents: Seq<AgentView>, id: Seq<char>, i: int) -> bool {
    0 <= i < agents.len() && agents[i].id == id && forall|j: int| 0 <= j < i ==> (#[trigger] agents[j]).id != id
}

/// The value of variable `k`, if it is set.
pub open spec fn variable(c: ConversationView, k: Seq<char>) -> Option<serde_json::Value> {
    if c.variables.contains_key(k) {
        Some(c.variables[k])
    } else {
        None
    }
}

/// The conversation with variable `k` set to `v`.
pub open spec fn with_variable(c: ConversationView, k: Seq<char>, v: serde_json::Value) -> ConversationView {
    ConversationView { variables: c.variables.insert(k, v), ..c }
}

/// The conversation with variable `k` unset.
pub open spec fn without_variable(c: ConversationView, k: Seq<char>) -> ConversationView {
    ConversationView { variables: c.variables.remove(k), ..c }
}

/// Whether some agent has this name.
pub open spec fn has_agent(agents: Seq<AgentView>, id: Seq<char>) -> bool {
    exists|i: int| 0 <= i < agents.len() && (#[trigger] agents[i]).id == id
}

impl Conversation {
    pub const MAIN_AGENT_NAME: &'static str = "software-engineer";

    /// Starts a conversation from a workflow: every agent takes the
    /// workflow's settings where the workflow sets them, and the main agent
    /// listens to the workflow's commands too.
    pub fn new(id: ConversationId, workflow: Workflow) -> (c: Self)
        ensures
            c@ == started(id, workflow@),
    {
        let ghost w = workflow@;
        let Workflow { agents: workflow_agents, variables, commands, model, max_walker_depth, custom_rules, temperature } = workflow;
        let names = names_of(&commands);
        let main_name = Self::MAIN_AGENT_NAME.to_owned();
        let mut agents: Vec<Agent> = Vec::new();
        let ghost source = workflow_agents@;
        for agent in it: workflow_agents.into_iter()
            invariant
                it.seq() == source,
                texts(names@) == command_names(w.commands),
                main_name@ == main_agent_name(),
                w.model == crate::agent::model_view(model),
                w.max_walker_depth == max_walker_depth,
                w.custom_rules == crate::agent::text_view(custom_rules),
                w.temperature == temperature,
                agents@.len() == it.index(),
                forall|j: int| 0 <= j < it.index() ==> #[trigger] agents@[j]@ == configured(w, source[j]@),
        {
            let Agent {
                id: agent_id,
                model: own_model,
                subscribe,
                max_turns,
                max_walker_depth: own_depth,
                custom_rules: own_rules,
                temperature: own_temperature,
                disable,
            } = agent;
            let model = match &model {
                Some(m) => Some(m.clone()),
                None => own_model,
            };
            let custom_rules = match &custom_rules {
                Some(r) => Some(r.clone()),
                None => own_rules,
            };
            let max_walker_depth = match max_walker_depth {
                Some(d) => Some(d),
                None => own_depth,
            };
            let temperature = match temperature {
                Some(t) => Some(t),
                None => own_temperature,
            };
            let subscribe = if agent_id.to_text() == main_name {
                let mut commands = clone_strings(&names);
                match subscribe {
                    Some(mut subs) => {
                        let ghost before = subs@;
                        subs.append(&mut commands);
                        assert(texts(subs@) =~= texts(before) + texts(names@));
                        Some(subs)
                    },
                    None => {
                        assert(texts(commands@) =~= Seq::<Seq<char>>::empty() + texts(names@));
                        Some(commands)
                    },
                }
            } else {
                subscribe
            };
            agents.push(Agent {
                id: agent_id,
                model,
                subscribe,
                max_turns,
                max_walker_depth,
                custom_rules,
                temperature,
                disable,
            });
        }
        let c = Conversation {
            id,
            archived: false,
            state: Table::new(),
            variables,
            agents,
            events: Vec::new(),
        };
        assert(c@.state =~= Map::empty());
        assert(c@.agents =~= w.agents.map_values(|a: AgentView| configured(w, a)));
        c
    }

    /// How many turns the agent has taken, if it has a state.
    pub fn turn_count(&self, id: &AgentId) -> (r: Option<u64>)
        ensures
            r == turns_taken(self@.state, id@),
    {
        match self.state.get(id.as_str()) {
            Some(s) => Some(s.turn_count),
            None => None,
        }
    }

    /// Whether the agent takes events with this name.
    fn takes(&self, agent: &Agent, name: &String) -> (b: bool)
        ensures
            b == listens(self@.state, agent@, name@),
    {
        let disabled = match agent.disable {
            Some(d) => d,
            None => false,
        };
        if disabled {
            return false;
        }
        let taken = match self.turn_count(&agent.id) {
            Some(t) => t,
            None => 0,
        };
        let limit = match agent.max_turns {
            Some(m) => m,
            None => u64::MAX,
        };
        if !(taken < limit) {
            return false;
        }
        match &agent.subscribe {
            Some(subs) => contains_text(subs, name),
            None => false,
        }
    }

    /// Returns the agent with the given id or an error if it doesn't exist
    pub fn get_agent(&self, id: &AgentId) -> (r: Result<&Agent, DomainError>)
        ensures
            match r {
                Ok(a) => exists|i: int| first_agent_with(self@.agents, id@, i) && *a == self.agents@[i],
                Err(e) => !has_agent(self@.agents, id@) && (e matches DomainError::AgentUndefined(x) && x@ == id@),
            },
            r matches Ok(a) ==> a@.id == id@,
            r is Err ==> forall|i: int| 0 <= i < self@.agents.len() ==> (#[trigger] self@.agents[i]).id != id@,
    {
        let mut i: usize = 0;
        while i < self.agents.len()
            invariant
                i <= self.agents@.len(),
                forall|j: int| 0 <= j < i ==> (#[trigger] self@.agents[j]).id != id@,
            decreases self.agents@.len() - i,
        {
            if self.agents[i].id == *id {
                assert(first_agent_with(self@.agents, id@, i as int));
                return Ok(&self.agents[i]);
            }
            i = i + 1;
        }
        Err(DomainError::AgentUndefined(id.clone()))
    }

    /// The context of the agent, if it has a state and a context.
    pub fn context(&self, id: &AgentId) -> (r: Option<&Context>)
        ensures
            match r {
                Some(c) => self@.state.contains_key(id@) && self@.state[id@].context == Some(*c),
                None => !self@.state.contains_key(id@) || self@.state[id@].context is None,
            },
    {
        match self.state.get(id.as_str()) {
            Some(s) => match &s.context {
                Some(c) => Some(c),
                None => None,
            },
            None => None,
        }
    }

    /// The last event with this name in the queue of some agent; which
    /// agent's queue is searched first is left open.
    pub fn rfind_event(&self, event_name: &str) -> (r: Option<&Event>)
        ensures
            match r {
                Some(e) => e.name@ == event_name@ && is_last_in_some_queue(self@.state, event_name@, *e),
                None => !some_queue_holds(self@.state, event_name@),
            },
            r is None ==> forall|k: Seq<char>, j: int|
                self@.state.contains_key(k) && 0 <= j < self@.state[k].queue.len() ==> (
                #[trigger] self@.state[k].queue[j]).name@ != event_name@,
    {
        proof {
            use_type_invariant(&self.state);
        }
        let name = event_name.to_owned();
        let ghost entries = self.state.spec_entries();
        let ghost st = self@.state;
        let n = self.state.len();
        let mut i: usize = 0;
        while i < n
            invariant
                i <= n,
                n == entries.len(),
                entries == self.state.spec_entries(),
                st == self@.state,
                name@ == event_name@,
                crate::table::keys_unique(entries),
                forall|a: int, j: int|
                    #![trigger entries[a].1.queue@[j]]
                    0 <= a < i && 0 <= j < entries[a].1.queue@.len() ==> entries[a].1.queue@[j].name@ != event_name@,
            decreases n - i,
        {
            let (_key, agent_state) = self.state.entry_at(i);
            proof {
                lemma_entry_in_map(entries, i as int);
            }
            let ghost k = entries[i as int].0@;
            let queue = &agent_state.queue;
            assert(st.contains_key(k) && st[k].queue == queue@);
            let mut j: usize = queue.len();
            while j > 0
                invariant
                    j <= queue@.len(),
                    name@ == event_name@,
                    st == self@.state,
                    st.contains_key(k) && st[k].queue == queue@,
                    forall|j2: int| j <= j2 < queue@.len() ==> (#[trigger] queue@[j2]).name@ != event_name@,
                decreases j,
            {
                j = j - 1;
                if queue[j].name == name {
                    assert(st[k].queue[j as int] == queue@[j as int]);
                    assert(is_last_in_some_queue(st, event_name@, queue@[j as int]));
                    return Some(&queue[j]);
                }
            }
            i = i + 1;
        }
        assert forall|k: Seq<char>, j: int|
            st.contains_key(k) && 0 <= j < st[k].queue.len() implies (#[trigger] st[k].queue[j]).name@ != event_name@
        by {
            let a = choose|a: int| 0 <= a < entries.len() && #[trigger] entries[a].0@ == k;
            lemma_entry_in_map(entries, a);
            assert(entries[a].1.queue@[j].name@ != event_name@);
        }
        None
    }

    /// Get a variable value by its key
    ///
    /// Returns None if the variable doesn't exist
    pub fn get_variable(&self, key: &str) -> (r: Option<&serde_json::Value>)
        ensures
            match r {
                Some(v) => variable(self@, key@) == Some(*v),
                None => variable(self@, key@) is None,
            },
    {
        self.variables.get(key)
    }

    /// Set a variable with the given key and value
    ///
    /// If the key already exists, its value will be updated
    pub fn set_variable(&mut self, key: String, value: serde_json::Value) -> (r: &mut Self)
        ensures
            r@ == with_variable(old(self)@, key@, value),
            *final(self) == *final(r),
    {
        self.variables.insert(key, value);
        self
    }

    /// Delete a variable by its key
    ///
    /// Returns true if the variable was present and removed, false otherwise
    pub fn delete_variable(&mut self, key: &str) -> (removed: bool)
        ensures
            removed == (variable(old(self)@, key@) is Some),
            final(self)@ == without_variable(old(self)@, key@),
    {
        let r = self.variables.remove(key);
        proof {
            if r is None {
                assert(old(self)@.variables.remove(key@) =~= old(self)@.variables);
            }
        }
        match r {
            Some(_) => true,
            None => false,
        }
    }

    /// Add an event to the queue of subscribed agents
    pub fn insert_event(&mut self, event: Event) -> (r: &mut Self)
        ensures
            r@ == with_event(old(self)@, event),
            *final(self) == *final(r),
    {
        let ghost c0 = self@;
        let subscribed = self.subscriptions(event.name.as_str());
        let ghost ids = agent_ids(subscribed@.map_values(|a: Agent| a@));
        assert(ids == agent_ids(subscribers(c0, event.name@)));
        self.events.push(event.clone());
        proof {
            lemma_enqueued_none(c0.state, ids.take(0), event);
        }
        let mut i: usize = 0;
        while i < subscribed.len()
            invariant
                i <= subscribed@.len(),
                ids == agent_ids(subscribed@.map_values(|a: Agent| a@)),
                self@ == (ConversationView {
                    state: enqueued(c0.state, ids.take(i as int), event),
                    events: c0.events.push(event),
                    ..c0
                }),
            decreases subscribed@.len() - i,
        {
            let ghost before = self@.state;
            let key = subscribed[i].id.to_text();
            let ghost k = key@;
            assert(ids[i as int] == k);
            let mut agent_state = match self.state.remove(key.as_str()) {
                Some(s) => s,
                None => AgentState::default(),
            };
            assert(agent_state@ == state_or_fresh(before, k));
            agent_state.queue.push_back(event.clone());
            self.state.insert(key, agent_state);
            proof {
                assert(ids.take(i + 1) =~= ids.take(i as int).push(k));
                lemma_enqueued_push(c0.state, ids.take(i as int), k, event);
                assert(self@.state =~= enqueue_one(before, k, event));
            }
            i = i + 1;
        }
        assert(ids.take(subscribed@.len() as int) =~= ids);
        self
    }

    /// Gets the next event for a specific agent, if one is available
    ///
    /// If an event is available in the agent's queue, it is popped and
    /// returned.
    ///
    /// Returns None if no events are available for this agent.
    pub fn poll_event(&mut self, agent_id: &AgentId) -> (r: Option<Event>)
        ensures
            r == next_event(old(self)@, agent_id@),
            final(self)@ == polled(old(self)@, agent_id@),
    {
        let ghost c0 = self@;
        match self.state.remove(agent_id.as_str()) {
            Some(mut agent_state) => {
                let event = agent_state.queue.pop_front();
                self.state.insert(agent_id.to_text(), agent_state);
                proof {
                    let k = agent_id@;
                    if event is Some {
                        assert(self@.state =~= polled(c0, k).state);
                    } else {
                        assert(self@.state =~= c0.state);
                    }
                }
                event
            },
            None => None,
        }
    }

    /// Dispatches an event to all subscribed agents and activates any inactive
    /// agents
    ///
    /// This method performs two main operations:
    /// 1. Adds the event to the queue of all agents that subscribe to this
    ///    event type
    /// 2. Activates any inactive agents (those with no event waiting) that
    ///    are subscribed to the event
    ///
    /// Returns a vector of AgentIds for all agents that were inactive and are
    /// now activated
    pub fn dispatch_event(&mut self, event: Event) -> (woken: Vec<AgentId>)
        ensures
            woken@.map_values(|a: AgentId| a@) == activated(old(self)@, event.name@),
            final(self)@ == with_event(old(self)@, event),
    {
        let ghost c0 = self@;
        let subscribed = self.subscriptions(event.name.as_str());
        let ghost ids = agent_ids(subscribed@.map_values(|a: Agent| a@));
        let ghost pred = |k: Seq<char>| is_idle(c0.state, k);
        let mut woken: Vec<AgentId> = Vec::new();
        let mut i: usize = 0;
        while i < subscribed.len()
            invariant
                i <= subscribed@.len(),
                self@ == c0,
                ids == agent_ids(subscribed@.map_values(|a: Agent| a@)),
                pred == (|k: Seq<char>| is_idle(c0.state, k)),
                woken@.map_values(|a: AgentId| a@) == ids.take(i as int).filter(pred),
            decreases subscribed@.len() - i,
        {
            let ghost before = woken@;
            proof {
                reveal(Seq::filter);
                assert(ids.take(i + 1).drop_last() =~= ids.take(i as int));
                assert(ids.take(i + 1).last() == subscribed@[i as int].id@);
            }
            let idle = match self.state.get(subscribed[i].id.as_str()) {
                Some(s) => s.queue.len() == 0,
                None => true,
            };
            if idle {
                woken.push(subscribed[i].id.clone());
                assert(woken@.map_values(|a: AgentId| a@) =~= before.map_values(|a: AgentId| a@).push(
                    subscribed@[i as int].id@,
                ));
            }
            i = i + 1;
        }
        assert(ids.take(subscribed@.len() as int) =~= ids);
        self.insert_event(event);
        woken
    }

    /// The conversation with its identifier replaced.
    pub fn id(self, value: ConversationId) -> (c: Self)
        ensures
            c@ == (ConversationView { id: value, ..self@ }),
    {
        let mut c = self;
        c.id = value;
        c
    }

    /// The conversation with its archived flag replaced.
    pub fn archived(self, value: bool) -> (c: Self)
        ensures
            c@ == (ConversationView { archived: value, ..self@ }),
    {
        let mut c = self;
        c.archived = value;
        c
    }

    /// The conversation with the agents' states replaced.
    pub fn state(self, value: Table<AgentState>) -> (c: Self)
        ensures
            c@ == (ConversationView { state: states_view(value@), ..self@ }),
    {
        let mut c = self;
        c.state = value;
        c
    }

    /// The conversation with its variables replaced.
    pub fn variables(self, value: Table<serde_json::Value>) -> (c: Self)
        ensures
            c@ == (ConversationView { variables: value@, ..self@ }),
    {
        let mut c = self;
        c.variables = value;
        c
    }

    /// The conversation with its agents replaced.
    pub fn agents(self, value: Vec<Agent>) -> (c: Self)
        ensures
            c@ == (ConversationView { agents: value@.map_values(|a: Agent| a@), ..self@ }),
    {
        let mut c = self;
        c.agents = value;
        c
    }

    /// The conversation with its event log replaced.
    pub fn events(self, value: Vec<Event>) -> (c: Self)
        ensures
            c@ == (ConversationView { events: value@, ..self@ }),
    {
        let mut c = self;
        c.events = value;
        c
    }

    /// Returns all the agents that are subscribed to the given event.
    pub fn subscriptions(&self, event_name: &str) -> (r: Vec<Agent>)
        ensures
            r@.map_values(|a: Agent| a@) == subscribers(self@, event_name@),
    {
        let name = event_name.to_owned();
        let ghost all = self@.agents;
        let ghost pred = |a: AgentView| listens(self@.state, a, event_name@);
        let mut r: Vec<Agent> = Vec::new();
        let mut i: usize = 0;
        while i < self.agents.len()
            invariant
                i <= self.agents@.len(),
                name@ == event_name@,
                all == self@.agents,
                pred == (|a: AgentView| listens(self@.state, a, event_name@)),
                r@.map_values(|a: Agent| a@) == all.take(i as int).filter(pred),
            decreases self.agents@.len() - i,
        {
            let ghost before = r@;
            proof {
                reveal(Seq::filter);
                assert(all.take(i + 1).drop_last() =~= all.take(i as int));
                assert(all.take(i + 1).last() == self.agents@[i as int]@);
            }
            if self.takes(&self.agents[i], &name) {
                r.push(self.agents[i].clone());
                assert(r@.map_values(|a: Agent| a@) =~= before.map_values(|a: Agent| a@).push(self.agents@[i as int]@));
            }
            i = i + 1;
        }
        assert(all.take(self.agents@.len() as int) =~= all);
        r
    }
}

/// The names of the commands, as owned texts.
fn names_of(commands: &Vec<Command>) -> (names: Vec<String>)
    ensures
        texts(names@) == command_names(commands@.map_values(|c: Command| c@)),
{
    let mut names: Vec<String> = Vec::new();
    let mut i: usize = 0;
    while i < commands.len()
        invariant
            i <= commands@.len(),
            names@.len() == i,
            forall|j: int| 0 <= j < i ==> #[trigger] names@[j]@ == commands@[j].name@,
        decreases commands@.len() - i,
    {
        names.push(commands[i].name.clone());
        i = i + 1;
    }
    assert(texts(names@) =~= command_names(commands@.map_values(|c: Command| c@)));
    names
}

} // verus!
