use forge_domain::agent::{Agent, AgentId};
use forge_domain::conversation::{AgentState, Conversation};
use forge_domain::event::{Context, Event};
use forge_domain::table::Table;
use forge_domain::workflow::Workflow;
use forge_domain::{ConversationId, DomainError};
use serde_json::Value;

fn event(id: &str, name: &str, value: &str) -> Event {
    Event {
        id: id.to_string(),
        name: name.to_string(),
        value: value.to_string(),
        timestamp: "2024-01-01T00:00:00Z".to_string(),
    }
}

fn listener(id: &str, events: &[&str]) -> Agent {
    let mut agent = Agent::new(id);
    agent.subscribe = Some(events.iter().map(|e| e.to_string()).collect());
    agent
}

fn conversation_with(agents: Vec<Agent>) -> Conversation {
    let workflow = Workflow {
        agents,
        variables: Table::new(),
        commands: Vec::new(),
        model: None,
        max_walker_depth: None,
        custom_rules: None,
        temperature: None,
    };
    Conversation::new(ConversationId::from_u128(1), workflow)
}

fn ids(agents: &[Agent]) -> Vec<String> {
    agents.iter().map(|a| a.id.as_str().to_string()).collect()
}

#[test]
fn subscriptions_keep_only_enabled_listeners_under_their_turn_limit() {
    let mut disabled = listener("disabled", &["build"]);
    disabled.disable = Some(true);
    let mut limited = listener("limited", &["build"]);
    limited.max_turns = Some(3);
    let mut unlimited_enabled = listener("enabled", &["build"]);
    unlimited_enabled.disable = Some(false);
    let other = listener("other", &["test"]);
    let mut conversation = conversation_with(vec![disabled, limited, unlimited_enabled, other]);

    assert_eq!(ids(&conversation.subscriptions("build")), vec!["limited", "enabled"]);
    assert_eq!(ids(&conversation.subscriptions("test")), vec!["other"]);
    assert!(conversation.subscriptions("deploy").is_empty());

    let mut state = AgentState::default();
    state.turn_count = 3;
    conversation.state.insert("limited".to_string(), state);
    assert_eq!(conversation.turn_count(&AgentId::new("limited")), Some(3));
    assert_eq!(ids(&conversation.subscriptions("build")), vec!["enabled"]);
}

#[test]
fn turn_count_is_none_without_state() {
    let conversation = conversation_with(vec![listener("a", &["x"])]);
    assert_eq!(conversation.turn_count(&AgentId::new("a")), None);
}

#[test]
fn get_agent_finds_first_or_reports_undefined() {
    let mut first = listener("a", &["x"]);
    first.max_turns = Some(1);
    let mut second = listener("a", &["y"]);
    second.max_turns = Some(2);
    let conversation = conversation_with(vec![first, second, listener("b", &[])]);

    let found = conversation.get_agent(&AgentId::new("a")).unwrap();
    assert_eq!(found.max_turns, Some(1));
    assert_eq!(conversation.get_agent(&AgentId::new("b")).unwrap().id.as_str(), "b");
    match conversation.get_agent(&AgentId::new("missing")) {
        Err(DomainError::AgentUndefined(id)) => assert_eq!(id.as_str(), "missing"),
        _ => panic!("expected AgentUndefined"),
    }
}

#[test]
fn insert_event_queues_for_subscribers_in_order() {
    let mut conversation = conversation_with(vec![listener("a", &["x"]), listener("b", &["y"])]);
    conversation.insert_event(event("1", "x", "first"));
    conversation.insert_event(event("2", "x", "second")).insert_event(event("3", "y", "third"));

    assert_eq!(conversation.events.len(), 3);
    let a = AgentId::new("a");
    let b = AgentId::new("b");
    assert_eq!(conversation.poll_event(&a).unwrap().value, "first");
    assert_eq!(conversation.poll_event(&a).unwrap().value, "second");
    assert!(conversation.poll_event(&a).is_none());
    assert_eq!(conversation.poll_event(&b).unwrap().value, "third");
    assert!(conversation.poll_event(&b).is_none());
    assert!(conversation.poll_event(&AgentId::new("nobody")).is_none());
}

#[test]
fn insert_event_without_subscriber_only_logs() {
    let mut conversation = conversation_with(vec![listener("a", &["x"])]);
    conversation.insert_event(event("1", "unheard", "v"));
    assert_eq!(conversation.events.len(), 1);
    assert!(conversation.state.is_empty());
}

#[test]
fn dispatch_event_reports_only_idle_subscribers() {
    let mut conversation = conversation_with(vec![
        listener("a", &["x"]),
        listener("b", &["x"]),
        listener("c", &["y"]),
    ]);
    let first = conversation.dispatch_event(event("1", "x", "v1"));
    let first: Vec<&str> = first.iter().map(|id| id.as_str()).collect();
    assert_eq!(first, vec!["a", "b"]);

    // b takes its event, a does not
    assert_eq!(conversation.poll_event(&AgentId::new("b")).unwrap().id, "1");
    let second = conversation.dispatch_event(event("2", "x", "v2"));
    let second: Vec<&str> = second.iter().map(|id| id.as_str()).collect();
    assert_eq!(second, vec!["b"]);

    assert_eq!(conversation.poll_event(&AgentId::new("a")).unwrap().id, "1");
    assert_eq!(conversation.poll_event(&AgentId::new("a")).unwrap().id, "2");
    assert_eq!(conversation.poll_event(&AgentId::new("b")).unwrap().id, "2");
    assert!(conversation.poll_event(&AgentId::new("c")).is_none());
    assert_eq!(conversation.events.len(), 2);
}

#[test]
fn rfind_event_finds_the_last_matching_event() {
    let mut conversation = conversation_with(vec![listener("a", &["x", "y"])]);
    assert!(conversation.rfind_event("x").is_none());
    conversation.insert_event(event("1", "x", "old"));
    conversation.insert_event(event("2", "y", "other"));
    conversation.insert_event(event("3", "x", "new"));
    assert_eq!(conversation.rfind_event("x").unwrap().value, "new");
    assert_eq!(conversation.rfind_event("y").unwrap().value, "other");
    assert!(conversation.rfind_event("z").is_none());
}

#[test]
fn context_is_given_only_where_set() {
    let mut conversation = conversation_with(vec![listener("a", &["x"])]);
    let a = AgentId::new("a");
    assert!(conversation.context(&a).is_none());
    conversation.insert_event(event("1", "x", "v"));
    assert!(conversation.context(&a).is_none());
    let mut state = AgentState::default();
    state.context = Some(Context { messages: vec!["hello".to_string()] });
    conversation.state.insert("a".to_string(), state);
    assert_eq!(conversation.context(&a).unwrap().messages, vec!["hello".to_string()]);
}

#[test]
fn variables_set_get_delete() {
    let mut conversation = conversation_with(Vec::new());
    assert!(conversation.get_variable("k").is_none());
    conversation
        .set_variable("k".to_string(), Value::from(1))
        .set_variable("j".to_string(), Value::from("two"));
    assert_eq!(conversation.get_variable("k"), Some(&Value::from(1)));
    conversation.set_variable("k".to_string(), Value::from(3));
    assert_eq!(conversation.get_variable("k"), Some(&Value::from(3)));
    assert_eq!(conversation.variables.len(), 2);
    assert!(conversation.delete_variable("k"));
    assert!(conversation.get_variable("k").is_none());
    assert!(!conversation.delete_variable("k"));
    assert_eq!(conversation.get_variable("j"), Some(&Value::from("two")));
}

#[test]
fn table_keeps_one_entry_per_key() {
    let mut table: Table<u32> = Table::new();
    table.insert("a".to_string(), 1);
    table.insert("b".to_string(), 2);
    table.insert("a".to_string(), 3);
    assert_eq!(table.len(), 2);
    assert_eq!(table.get("a"), Some(&3));
    assert!(table.contains_key("b"));
    assert_eq!(table.remove("b"), Some(2));
    assert_eq!(table.remove("b"), None);
    assert_eq!(table.into_entries(), vec![("a".to_string(), 3)]);
}

#[test]
fn insert_event_keeps_turn_counts() {
    let mut conversation = conversation_with(vec![listener("a", &["x"])]);
    let mut state = AgentState::default();
    state.turn_count = 2;
    conversation.state.insert("a".to_string(), state);
    conversation.insert_event(event("1", "x", "v"));
    assert_eq!(conversation.turn_count(&AgentId::new("a")), Some(2));
    assert_eq!(conversation.poll_event(&AgentId::new("a")).unwrap().id, "1");
    assert_eq!(conversation.turn_count(&AgentId::new("a")), Some(2));
}

#[test]
fn delete_undoes_set_variable() {
    let mut conversation = conversation_with(Vec::new());
    conversation.set_variable("k".to_string(), Value::from(true));
    assert!(conversation.delete_variable("k"));
    assert!(conversation.get_variable("k").is_none());
    assert!(conversation.variables.is_empty());
}

#[test]
fn setters_replace_one_field() {
    let conversation = conversation_with(vec![listener("a", &["x"])])
        .archived(true)
        .id(ConversationId::from_u128(9))
        .events(vec![event("1", "x", "v")]);
    assert!(conversation.archived);
    assert_eq!(conversation.id.as_u128(), 9);
    assert_eq!(conversation.events.len(), 1);
    assert_eq!(conversation.agents.len(), 1);
    let conversation = conversation.agents(Vec::new()).variables(Table::new()).state(Table::new());
    assert!(conversation.agents.is_empty());
}
