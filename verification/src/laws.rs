use vstd::prelude::*;

use crate::agent::AgentView;
use crate::conversation::{
    Conversation, ConversationView, first_agent_with, has_agent, is_last_in_some_queue, some_queue_holds, activated, agent_ids, command_names, configured, is_idle, listens, main_agent_name,
    next_event, occurrences, polled, started, subscribers, turns_taken, variable, with_event, with_variable,
    without_variable,
};
use crate::conversation_id::{ConversationId, hex_digit, hyphenated};
use crate::event::Event;
use crate::workflow::WorkflowView;

verus! {

broadcast use vstd::seq_lib::group_filter_ensures;

/// An element occurs in a list exactly when it is counted there.
pub proof fn lemma_occurrences_contains<A>(ids: Seq<A>, k: A)
    ensures
        (occurrences(ids, k) > 0) == ids.contains(k),
    decreases ids.len(),
{
    if ids.len() > 0 {
        let rest = ids.drop_last();
        lemma_occurrences_contains(rest, k);
        if ids.last() == k {
            assert(ids[ids.len() - 1] == k);
        } else {
            if rest.contains(k) {
                let i = choose|i: int| 0 <= i < rest.len() && rest[i] == k;
                assert(ids[i] == k);
            }
            if ids.contains(k) {
                let i = choose|i: int| 0 <= i < ids.len() && ids[i] == k;
                assert(rest[i] == k);
            }
        }
    }
}

/// Counting is adding one for each element equal to the one counted.
pub proof fn law_occurrences_counts<A>(s: Seq<A>, y: A, x: A)
    ensures
        occurrences(Seq::<A>::empty(), x) == 0,
        occurrences(s.push(y), x) == occurrences(s, x) + if y == x {
            1nat
        } else {
            0nat
        },
{
    assert(s.push(y).drop_last() =~= s);
}

/// An element that stands at exactly one position of a list is counted
/// once.
pub proof fn lemma_occurrences_once<A>(s: Seq<A>, x: A)
    requires
        s.contains(x),
        forall|i: int, j: int| 0 <= i < s.len() && 0 <= j < s.len() && s[i] == x && s[j] == x ==> i == j,
    ensures
        occurrences(s, x) == 1,
    decreases s.len(),
{
    let rest = s.drop_last();
    if s.last() == x {
        if rest.contains(x) {
            let i = choose|i: int| 0 <= i < rest.len() && rest[i] == x;
            assert(s[i] == x && s[s.len() - 1] == x);
        }
        lemma_occurrences_contains(rest, x);
    } else {
        let i = choose|i: int| 0 <= i < s.len() && s[i] == x;
        assert(rest[i] == x);
        assert forall|a: int, b: int| 0 <= a < rest.len() && 0 <= b < rest.len() && rest[a] == x && rest[b] == x implies a == b by {
            assert(s[a] == x && s[b] == x);
        }
        lemma_occurrences_once(rest, x);
    }
}

/// Counting what a filter keeps: an element that passes is counted as often
/// as in the whole list, any other not at all.
pub proof fn lemma_occurrences_filter<A>(s: Seq<A>, pred: spec_fn(A) -> bool, x: A)
    ensures
        occurrences(s.filter(pred), x) == if pred(x) {
            occurrences(s, x)
        } else {
            0
        },
    decreases s.len(),
{
    reveal(Seq::filter);
    if s.len() > 0 {
        lemma_occurrences_filter(s.drop_last(), pred, x);
        let f = s.drop_last().filter(pred);
        if pred(s.last()) {
            assert(f.push(s.last()).drop_last() =~= f);
        }
    }
}

/// Every agent of a conversation started from a workflow keeps its name,
/// turn limit and disable flag; it gets the workflow's model, walk depth,
/// rules and temperature where the workflow sets them and keeps its own
/// where it does not; the agent named `software-engineer` listens to what it
/// listened to before followed by the names of the workflow's commands, in
/// order, and every other agent listens to what it listened to before.
pub proof fn law_new_agent_settings(id: ConversationId, w: WorkflowView)
    ensures
        started(id, w).agents.len() == w.agents.len(),
        forall|i: int|
            #![trigger started(id, w).agents[i]]
            0 <= i < w.agents.len() ==> {
                let a = started(id, w).agents[i];
                let b = w.agents[i];
                &&& a.id == b.id
                &&& a.max_turns == b.max_turns
                &&& a.disable == b.disable
                &&& a.model == (if w.model is Some { w.model } else { b.model })
                &&& a.max_walker_depth == (if w.max_walker_depth is Some { w.max_walker_depth } else { b.max_walker_depth })
                &&& a.custom_rules == (if w.custom_rules is Some { w.custom_rules } else { b.custom_rules })
                &&& a.temperature == (if w.temperature is Some { w.temperature } else { b.temperature })
                &&& b.id != Conversation::MAIN_AGENT_NAME@ ==> a.subscribe == b.subscribe
            },
        forall|i: int|
            #![trigger started(id, w).agents[i]]
            0 <= i < w.agents.len() && w.agents[i].id == Conversation::MAIN_AGENT_NAME@ ==> {
                let a = started(id, w).agents[i];
                let own = if w.agents[i].subscribe is Some { w.agents[i].subscribe.unwrap() } else { Seq::empty() };
                &&& a.subscribe is Some
                &&& a.subscribe.unwrap().len() == own.len() + w.commands.len()
                &&& forall|j: int| 0 <= j < own.len() ==> a.subscribe.unwrap()[j] == own[j]
                &&& forall|j: int| 0 <= j < w.commands.len() ==> a.subscribe.unwrap()[own.len() + j] == w.commands[j].name
            },
{
    assert forall|i: int| 0 <= i < w.agents.len() && w.agents[i].id == Conversation::MAIN_AGENT_NAME@ implies {
        let a = started(id, w).agents[i];
        let own = if w.agents[i].subscribe is Some { w.agents[i].subscribe.unwrap() } else { Seq::empty() };
        &&& a.subscribe is Some
        &&& a.subscribe.unwrap().len() == own.len() + w.commands.len()
        &&& forall|j: int| 0 <= j < own.len() ==> a.subscribe.unwrap()[j] == own[j]
        &&& forall|j: int| 0 <= j < w.commands.len() ==> a.subscribe.unwrap()[own.len() + j] == w.commands[j].name
    } by {
        let a = started(id, w).agents[i];
        assert(a == configured(w, w.agents[i]));
    }
}

/// Looking an agent up by name: some agent has the name exactly when some
/// position holds an agent with it; then there is exactly one first such
/// position, and the agent there has the name, whatever its other settings,
/// while no agent before it does.
pub proof fn law_agent_lookup(agents: Seq<AgentView>, id: Seq<char>)
    ensures
        has_agent(agents, id) <==> exists|i: int| 0 <= i < agents.len() && #[trigger] agents[i].id == id,
        has_agent(agents, id) ==> exists|i: int| first_agent_with(agents, id, i),
        forall|i: int|
            #[trigger] first_agent_with(agents, id, i) ==> 0 <= i < agents.len() && agents[i].id == id && forall|j: int|
                0 <= j < i ==> agents[j].id != id,
        forall|i1: int, i2: int| #[trigger] first_agent_with(agents, id, i1) && #[trigger] first_agent_with(agents, id, i2) ==> i1 == i2,
    decreases agents.len(),
{
    if agents.len() > 0 {
        let rest = agents.drop_last();
        law_agent_lookup(rest, id);
        if has_agent(agents, id) {
            if has_agent(rest, id) {
                let i = choose|i: int| first_agent_with(rest, id, i);
                assert(rest[i] == agents[i]);
                assert forall|j: int| 0 <= j < i implies (#[trigger] agents[j]).id != id by {
                    assert(rest[j] == agents[j]);
                }
                assert(first_agent_with(agents, id, i));
            } else {
                let last = agents.len() - 1;
                assert forall|j: int| 0 <= j < last implies (#[trigger] agents[j]).id != id by {
                    assert(rest[j] == agents[j]);
                }
                assert(first_agent_with(agents, id, last));
            }
        }
    }
    assert forall|i1: int, i2: int| #[trigger] first_agent_with(agents, id, i1) && #[trigger] first_agent_with(agents, id, i2) implies i1 == i2 by {
        if i1 < i2 {
            assert(agents[i1].id == id);
        } else if i2 < i1 {
            assert(agents[i2].id == id);
        }
    }
}

/// The agents that take events named `name` are the conversation's agents
/// that are not disabled, have taken fewer turns than their limit (an agent
/// without a state has taken none, an agent without a limit may take up to
/// `u64::MAX`), and have a subscribe list that holds `name`; an agent without
/// a subscribe list takes nothing. Each such agent is taken as often as it
/// stands among the agents, any other agent never.
pub proof fn law_subscribers_take_event(c: ConversationView, name: Seq<char>)
    ensures
        forall|a: AgentView|
            #![trigger occurrences(subscribers(c, name), a)]
            occurrences(subscribers(c, name), a) == if {
                &&& a.disable != Some(true)
                &&& (if c.state.contains_key(a.id) { c.state[a.id].turn_count as int } else { 0 }) < (if a.max_turns is Some {
                    a.max_turns.unwrap() as int
                } else {
                    u64::MAX as int
                })
                &&& a.subscribe is Some
                &&& a.subscribe.unwrap().contains(name)
            } {
                occurrences(c.agents, a)
            } else {
                0
            },
        forall|i: int|
            #![trigger subscribers(c, name)[i]]
            0 <= i < subscribers(c, name).len() ==> {
                let a = subscribers(c, name)[i];
                &&& c.agents.contains(a)
                &&& a.disable != Some(true)
                &&& (if c.state.contains_key(a.id) { c.state[a.id].turn_count as int } else { 0 }) < (if a.max_turns is Some {
                    a.max_turns.unwrap() as int
                } else {
                    u64::MAX as int
                })
                &&& a.subscribe is Some
                &&& a.subscribe.unwrap().contains(name)
            },
{
    let pred = |a: AgentView| listens(c.state, a, name);
    assert forall|a: AgentView| #[trigger] occurrences(subscribers(c, name), a) == if {
        &&& a.disable != Some(true)
        &&& (if c.state.contains_key(a.id) { c.state[a.id].turn_count as int } else { 0 }) < (if a.max_turns is Some {
            a.max_turns.unwrap() as int
        } else {
            u64::MAX as int
        })
        &&& a.subscribe is Some
        &&& a.subscribe.unwrap().contains(name)
    } {
        occurrences(c.agents, a)
    } else {
        0
    } by {
        lemma_occurrences_filter(c.agents, pred, a);
    }
    assert forall|i: int| 0 <= i < subscribers(c, name).len() implies {
        let a = #[trigger] subscribers(c, name)[i];
        &&& c.agents.contains(a)
        &&& a.disable != Some(true)
        &&& (if c.state.contains_key(a.id) { c.state[a.id].turn_count as int } else { 0 }) < (if a.max_turns is Some {
            a.max_turns.unwrap() as int
        } else {
            u64::MAX as int
        })
        &&& a.subscribe is Some
        &&& a.subscribe.unwrap().contains(name)
    } by {
        let a = subscribers(c, name)[i];
        c.agents.lemma_filter_pred(pred, i);
        assert(subscribers(c, name).contains(a));
        c.agents.lemma_filter_contains_rev(pred, a);
    }
}

/// The subscribers of a list of agents split with the list: those of the
/// front part come first, in their order, then those of the rest; a single
/// agent is a subscriber of its own exactly when it is not disabled, is
/// under its turn limit, and has a subscribe list holding the name. The
/// agents that a dispatch reports split the same way, a single agent being
/// reported when it subscribes and has nothing waiting.
pub proof fn law_subscribers_in_order(c: ConversationView, name: Seq<char>, a: Seq<AgentView>, b: Seq<AgentView>, x: AgentView)
    requires
        c.agents == a + b,
    ensures
        subscribers(c, name) == subscribers(ConversationView { agents: a, ..c }, name) + subscribers(
            ConversationView { agents: b, ..c },
            name,
        ),
        activated(c, name) == activated(ConversationView { agents: a, ..c }, name) + activated(
            ConversationView { agents: b, ..c },
            name,
        ),
        subscribers(ConversationView { agents: seq![x], ..c }, name) == if {
            &&& x.disable != Some(true)
            &&& (if c.state.contains_key(x.id) { c.state[x.id].turn_count as int } else { 0 }) < (if x.max_turns is Some {
                x.max_turns.unwrap() as int
            } else {
                u64::MAX as int
            })
            &&& x.subscribe is Some
            &&& x.subscribe.unwrap().contains(name)
        } {
            seq![x]
        } else {
            Seq::<AgentView>::empty()
        },
        activated(ConversationView { agents: seq![x], ..c }, name) == if {
            &&& x.disable != Some(true)
            &&& (if c.state.contains_key(x.id) { c.state[x.id].turn_count as int } else { 0 }) < (if x.max_turns is Some {
                x.max_turns.unwrap() as int
            } else {
                u64::MAX as int
            })
            &&& x.subscribe is Some
            &&& x.subscribe.unwrap().contains(name)
            &&& (!c.state.contains_key(x.id) || c.state[x.id].queue.len() == 0)
        } {
            seq![x.id]
        } else {
            Seq::<Seq<char>>::empty()
        },
{
    let pred = |y: AgentView| listens(c.state, y, name);
    let idle = |k: Seq<char>| is_idle(c.state, k);
    let ca = ConversationView { agents: a, ..c };
    let cb = ConversationView { agents: b, ..c };
    let cx = ConversationView { agents: seq![x], ..c };
    Seq::filter_distributes_over_add(a, b, pred);
    assert(subscribers(c, name) == a.filter(pred) + b.filter(pred));
    assert(agent_ids(subscribers(c, name)) =~= agent_ids(subscribers(ca, name)) + agent_ids(subscribers(cb, name)));
    Seq::filter_distributes_over_add(agent_ids(subscribers(ca, name)), agent_ids(subscribers(cb, name)), idle);
    reveal(Seq::filter);
    assert(seq![x].drop_last() =~= Seq::<AgentView>::empty());
    let sx = subscribers(cx, name);
    assert(sx == seq![x].filter(pred));
    assert(Seq::<AgentView>::empty().filter(pred) =~= Seq::<AgentView>::empty());
    assert(Seq::<Seq<char>>::empty().filter(idle) =~= Seq::<Seq<char>>::empty());
    if pred(x) {
        assert(sx =~= seq![x]);
        assert(agent_ids(sx) =~= seq![x.id]);
        assert(agent_ids(sx).drop_last() =~= Seq::<Seq<char>>::empty());
    } else {
        assert(sx =~= Seq::<AgentView>::empty());
        assert(agent_ids(sx) =~= Seq::<Seq<char>>::empty());
    }
}

/// Inserting an event leaves the identifier, archived flag, variables and
/// agents as they were and adds the event at the end of the log. For each
/// agent name: the agent has a state afterwards exactly when it had one or
/// takes the event; its former queue (none counts as empty) stays in front,
/// unchanged, and everything behind it is the event, once for each time the
/// agent stands among the subscribers; an agent that takes the event has it
/// last in its queue, and one that stands once among the subscribers has
/// exactly its former queue followed by the event; turn count and context
/// stay, and a new state starts with none taken and no context.
pub proof fn law_insert_event_appends(c: ConversationView, e: Event, k: Seq<char>)
    ensures
        ({
            let ids = agent_ids(subscribers(c, e.name@));
            let before = if c.state.contains_key(k) { c.state[k].queue } else { Seq::<Event>::empty() };
            let after = with_event(c, e);
            &&& after.id == c.id
            &&& after.archived == c.archived
            &&& after.variables == c.variables
            &&& after.agents == c.agents
            &&& after.events == c.events.push(e)
            &&& after.state.contains_key(k) == (c.state.contains_key(k) || ids.contains(k))
            &&& after.state.contains_key(k) ==> {
                &&& after.state[k].queue.len() == before.len() + occurrences(ids, k)
                &&& after.state[k].queue.subrange(0, before.len() as int) == before
                &&& forall|j: int| before.len() <= j < after.state[k].queue.len() ==> after.state[k].queue[j] == e
                &&& after.state[k].turn_count == (if c.state.contains_key(k) { c.state[k].turn_count } else { 0 })
                &&& after.state[k].context == (if c.state.contains_key(k) { c.state[k].context } else { None })
            }
            &&& ids.contains(k) ==> after.state[k].queue.len() > before.len() && after.state[k].queue.last() == e
            &&& (ids.contains(k) && forall|i: int, j: int|
                0 <= i < ids.len() && 0 <= j < ids.len() && ids[i] == k && ids[j] == k ==> i == j) ==> after.state[k].queue
                == before.push(e)
        }),
{
    let ids = agent_ids(subscribers(c, e.name@));
    let before = if c.state.contains_key(k) { c.state[k].queue } else { Seq::<Event>::empty() };
    let after = with_event(c, e);
    lemma_occurrences_contains(ids, k);
    if after.state.contains_key(k) {
        let n = occurrences(ids, k);
        assert(after.state[k].queue == before + Seq::new(n, |_i: int| e));
        assert(after.state[k].queue.subrange(0, before.len() as int) =~= before);
    }
    if ids.contains(k) && forall|i: int, j: int|
        0 <= i < ids.len() && 0 <= j < ids.len() && ids[i] == k && ids[j] == k ==> i == j {
        lemma_occurrences_once(ids, k);
        assert(after.state[k].queue =~= before.push(e));
    }
}

/// Searching the queues by name: an event is found exactly where some
/// agent's queue holds, at any position, an event with that name; what is
/// found stands in some agent's queue with no event of that name behind it.
pub proof fn law_queue_search(state: Map<Seq<char>, crate::conversation::AgentStateView>, name: Seq<char>, e: Event)
    ensures
        some_queue_holds(state, name) <==> exists|k: Seq<char>, j: int|
            state.contains_key(k) && 0 <= j < state[k].queue.len() && (#[trigger] state[k].queue[j]).name@ == name,
        is_last_in_some_queue(state, name, e) ==> exists|k: Seq<char>, j: int|
            state.contains_key(k) && 0 <= j < state[k].queue.len() && #[trigger] state[k].queue[j] == e && forall|j2: int|
                j < j2 < state[k].queue.len() ==> state[k].queue[j2].name@ != name,
{
}

/// Once an event has been inserted and some agent takes it, a search for
/// its name finds something.
pub proof fn law_inserted_event_is_found(c: ConversationView, e: Event)
    requires
        agent_ids(subscribers(c, e.name@)).len() > 0,
    ensures
        some_queue_holds(with_event(c, e).state, e.name@),
{
    let ids = agent_ids(subscribers(c, e.name@));
    let k = ids[0];
    assert(ids.contains(k));
    law_insert_event_appends(c, e, k);
    let q = with_event(c, e).state[k].queue;
    assert(q[q.len() - 1].name@ == e.name@);
}

/// A hex digit read as a number: `0`-`9` and `a`-`f` stand for 0 to 15.
pub open spec fn reads_as(c: char, v: int) -> bool {
    (48 <= c as int <= 57 && c as int - 48 == v) || (97 <= c as int <= 102 && c as int - 87 == v)
}

/// Where hex digit `d` (0 to 31) of an identifier stands in its text: the
/// digits come in groups of 8, 4, 4, 4 and 12, each group after the first
/// one place further on for the hyphen before it.
pub open spec fn digit_position(d: int) -> int {
    if d < 8 {
        d
    } else if d < 12 {
        d + 1
    } else if d < 16 {
        d + 2
    } else if d < 20 {
        d + 3
    } else {
        d + 4
    }
}

/// The text of an identifier is 36 characters: hyphens at positions 8, 13,
/// 18 and 23, and between them the 32 lower-case hex digits of the 128
/// bits, most significant first.
pub proof fn law_id_text_format(bits: u128)
    ensures
        hyphenated(bits).len() == 36,
        hyphenated(bits)[8] == '-' && hyphenated(bits)[13] == '-' && hyphenated(bits)[18] == '-'
            && hyphenated(bits)[23] == '-',
        forall|d: int|
            0 <= d < 32 ==> #[trigger] reads_as(
                hyphenated(bits)[digit_position(d)],
                (bits as int / vstd::arithmetic::power::pow(16, (31 - d) as nat)) % 16,
            ),
{
    assert forall|d: int| 0 <= d < 32 implies #[trigger] reads_as(
        hyphenated(bits)[digit_position(d)],
        (bits as int / vstd::arithmetic::power::pow(16, (31 - d) as nat)) % 16,
    ) by {
        let p = vstd::arithmetic::power::pow(16, (31 - d) as nat);
        vstd::arithmetic::power::lemma_pow_positive(16, (31 - d) as nat);
        let v = (bits as int / p) % 16;
        assert(bits as int / p >= 0) by (nonlinear_arith)
            requires
                p > 0,
                bits as int >= 0,
        ;
        assert(0 <= v < 16);
        lemma_hex_digit_reads(v);
    }
}

/// A digit written by `hex_digit` reads back as the number it was written
/// for.
pub proof fn lemma_hex_digit_reads(v: int)
    requires
        0 <= v < 16,
    ensures
        reads_as(hex_digit(v), v),
{
}

/// Setting a variable and reading it back gives the value set; every other
/// variable keeps its value.
pub proof fn law_variable_read_after_write(c: ConversationView, k: Seq<char>, v: serde_json::Value)
    ensures
        variable(with_variable(c, k, v), k) == Some(v),
        forall|o: Seq<char>| o != k ==> #[trigger] variable(with_variable(c, k, v), o) == variable(c, o),
        forall|o: Seq<char>|
            #[trigger] variable(c, o) == (if c.variables.contains_key(o) { Some(c.variables[o]) } else { None }),
        with_variable(c, k, v).variables.contains_key(k) && with_variable(c, k, v).variables[k] == v,
        forall|o: Seq<char>|
            o != k ==> (#[trigger] with_variable(c, k, v).variables.contains_key(o)) == c.variables.contains_key(o)
                && (c.variables.contains_key(o) ==> with_variable(c, k, v).variables[o] == c.variables[o]),
        with_variable(c, k, v).id == c.id && with_variable(c, k, v).archived == c.archived
            && with_variable(c, k, v).state == c.state && with_variable(c, k, v).agents == c.agents
            && with_variable(c, k, v).events == c.events,
{
}

/// Setting a variable twice keeps the second value only.
pub proof fn law_variable_last_write_wins(
    c: ConversationView,
    k: Seq<char>,
    v1: serde_json::Value,
    v2: serde_json::Value,
)
    ensures
        with_variable(with_variable(c, k, v1), k, v2) == with_variable(c, k, v2),
{
    assert(with_variable(with_variable(c, k, v1), k, v2).variables =~= with_variable(c, k, v2).variables);
}

/// After a variable is deleted, reading it gives nothing; every other
/// variable keeps its value; deleting it again changes nothing.
pub proof fn law_variable_gone_after_delete(c: ConversationView, k: Seq<char>)
    ensures
        variable(without_variable(c, k), k) is None,
        forall|o: Seq<char>| o != k ==> #[trigger] variable(without_variable(c, k), o) == variable(c, o),
        without_variable(without_variable(c, k), k) == without_variable(c, k),
        !without_variable(c, k).variables.contains_key(k),
        forall|o: Seq<char>|
            o != k ==> (#[trigger] without_variable(c, k).variables.contains_key(o)) == c.variables.contains_key(o)
                && (c.variables.contains_key(o) ==> without_variable(c, k).variables[o] == c.variables[o]),
        without_variable(c, k).id == c.id && without_variable(c, k).archived == c.archived
            && without_variable(c, k).state == c.state && without_variable(c, k).agents == c.agents
            && without_variable(c, k).events == c.events,
{
    assert(without_variable(without_variable(c, k), k).variables =~= without_variable(c, k).variables);
}

/// Deleting a variable that was just set leaves the variables as deleting
/// it alone would.
pub proof fn law_delete_undoes_set(c: ConversationView, k: Seq<char>, v: serde_json::Value)
    ensures
        without_variable(with_variable(c, k, v), k) == without_variable(c, k),
{
    assert(without_variable(with_variable(c, k, v), k).variables =~= without_variable(c, k).variables);
}

/// The agents that take an event are exactly the conversation's agents that
/// listen to its name.
pub proof fn law_subscribers_are_listeners(c: ConversationView, name: Seq<char>)
    ensures
        forall|i: int|
            0 <= i < subscribers(c, name).len() ==> listens(c.state, #[trigger] subscribers(c, name)[i], name)
                && c.agents.contains(subscribers(c, name)[i]),
        forall|i: int|
            0 <= i < c.agents.len() && listens(c.state, c.agents[i], name) ==> #[trigger] subscribers(
                c,
                name,
            ).contains(c.agents[i]),
{
    let pred = |a: AgentView| listens(c.state, a, name);
    assert forall|i: int| 0 <= i < subscribers(c, name).len() implies listens(
        c.state,
        #[trigger] subscribers(c, name)[i],
        name,
    ) && c.agents.contains(subscribers(c, name)[i]) by {
        c.agents.lemma_filter_pred(pred, i);
        assert(subscribers(c, name).contains(subscribers(c, name)[i]));
        c.agents.lemma_filter_contains_rev(pred, subscribers(c, name)[i]);
    }
    assert forall|i: int| 0 <= i < c.agents.len() && listens(c.state, c.agents[i], name) implies #[trigger] subscribers(
        c,
        name,
    ).contains(c.agents[i]) by {
        c.agents.lemma_filter_contains(pred, i);
    }
}

/// An agent that takes no event named like `e` keeps its state when `e` is
/// inserted, and gets none if it had none.
pub proof fn law_only_subscribers_receive(c: ConversationView, e: Event, k: Seq<char>)
    requires
        !agent_ids(subscribers(c, e.name@)).contains(k),
    ensures
        with_event(c, e).state.contains_key(k) == c.state.contains_key(k),
        c.state.contains_key(k) ==> with_event(c, e).state[k] == c.state[k],
{
    let ids = agent_ids(subscribers(c, e.name@));
    lemma_occurrences_contains(ids, k);
    if c.state.contains_key(k) {
        assert(c.state[k].queue + Seq::new(0, |_i: int| e) =~= c.state[k].queue);
    }
}

/// Inserting an event never changes how many turns an agent with a state has
/// taken.
pub proof fn law_insert_keeps_turns(c: ConversationView, e: Event, k: Seq<char>)
    requires
        c.state.contains_key(k),
    ensures
        turns_taken(with_event(c, e).state, k) == turns_taken(c.state, k),
        turns_taken(c.state, k) == Some(c.state[k].turn_count),
        with_event(c, e).state.contains_key(k) && with_event(c, e).state[k].turn_count == c.state[k].turn_count,
        forall|s: Map<Seq<char>, crate::conversation::AgentStateView>, o: Seq<char>|
            #[trigger] turns_taken(s, o) == (if s.contains_key(o) { Some(s[o].turn_count) } else { None }),
{
}

/// Queues are first in, first out: an event inserted behind a waiting one
/// does not come before it.
pub proof fn law_insert_keeps_next_event(c: ConversationView, e: Event, k: Seq<char>)
    requires
        next_event(c, k) is Some,
    ensures
        next_event(with_event(c, e), k) == next_event(c, k),
{
    let ids = agent_ids(subscribers(c, e.name@));
    let n = occurrences(ids, k);
    let q = c.state[k].queue;
    assert((q + Seq::new(n, |_i: int| e))[0] == q[0]);
}

/// The agents that a dispatch reports as activated are exactly the agents
/// that take the event and had none waiting; afterwards the event is the
/// next one each of them takes.
pub proof fn law_dispatch_activates_idle_subscribers(c: ConversationView, e: Event, k: Seq<char>)
    ensures
        activated(c, e.name@).contains(k) <==> (agent_ids(subscribers(c, e.name@)).contains(k) && is_idle(
            c.state,
            k,
        )),
        activated(c, e.name@).contains(k) ==> next_event(with_event(c, e), k) == Some(e),
        activated(c, e.name@).contains(k) <==> (agent_ids(subscribers(c, e.name@)).contains(k) && (!c.state.contains_key(
            k,
        ) || c.state[k].queue.len() == 0)),
        activated(c, e.name@).contains(k) ==> with_event(c, e).state.contains_key(k) && with_event(c, e).state[k].queue.len()
            > 0 && with_event(c, e).state[k].queue[0] == e,
        occurrences(activated(c, e.name@), k) == if !c.state.contains_key(k) || c.state[k].queue.len() == 0 {
            occurrences(agent_ids(subscribers(c, e.name@)), k)
        } else {
            0
        },
{
    let ids = agent_ids(subscribers(c, e.name@));
    let pred = |x: Seq<char>| is_idle(c.state, x);
    lemma_occurrences_filter(ids, pred, k);
    if activated(c, e.name@).contains(k) {
        let i = choose|i: int| 0 <= i < activated(c, e.name@).len() && activated(c, e.name@)[i] == k;
        ids.lemma_filter_pred(pred, i);
        ids.lemma_filter_contains_rev(pred, k);
        lemma_occurrences_contains(ids, k);
        let n = occurrences(ids, k);
        let q = if c.state.contains_key(k) { c.state[k].queue } else { Seq::empty() };
        assert(q.len() == 0);
        assert((q + Seq::new(n, |_i: int| e))[0] == e);
    }
    if ids.contains(k) && is_idle(c.state, k) {
        let i = choose|i: int| 0 <= i < ids.len() && ids[i] == k;
        ids.lemma_filter_contains(pred, i);
    }
}

/// Polling hands out the front of the agent's queue and shortens it by one;
/// once the last waiting event is taken the agent counts as inactive again;
/// no other agent's state changes.
pub proof fn law_poll_takes_front(c: ConversationView, k: Seq<char>)
    ensures
        next_event(c, k) is Some ==> polled(c, k).state[k].queue.len() == c.state[k].queue.len() - 1,
        next_event(c, k) is Some && c.state[k].queue.len() == 1 ==> is_idle(polled(c, k).state, k),
        next_event(c, k) is None ==> polled(c, k) == c,
        (c.state.contains_key(k) && c.state[k].queue.len() > 0) ==> {
            let p = polled(c, k);
            &&& next_event(c, k) == Some(c.state[k].queue[0])
            &&& p.state.contains_key(k)
            &&& p.state[k].queue == c.state[k].queue.subrange(1, c.state[k].queue.len() as int)
            &&& p.state[k].turn_count == c.state[k].turn_count
            &&& p.state[k].context == c.state[k].context
            &&& p.id == c.id && p.archived == c.archived && p.variables == c.variables
            &&& p.agents == c.agents && p.events == c.events
        },
        !(c.state.contains_key(k) && c.state[k].queue.len() > 0) ==> next_event(c, k) is None && polled(c, k) == c,
        forall|o: Seq<char>|
            o != k ==> (#[trigger] polled(c, k).state.contains_key(o)) == c.state.contains_key(o)
                && (c.state.contains_key(o) ==> polled(c, k).state[o] == c.state[o]),
{
}

/// A conversation starts unarchived, with no agent state and no event, with
/// the workflow's variables and one agent for each of the workflow's agents,
/// in the same order; the main agent listens to every command of the
/// workflow and still to every event it listened to before, and every other
/// agent listens to what it listened to before.
pub proof fn law_new_conversation(id: ConversationId, w: WorkflowView)
    ensures
        started(id, w).id == id,
        !started(id, w).archived,
        started(id, w).state.is_empty(),
        started(id, w).events.len() == 0,
        started(id, w).variables == w.variables,
        started(id, w).agents.len() == w.agents.len(),
        forall|i: int|
            0 <= i < w.agents.len() ==> (#[trigger] started(id, w).agents[i]).id == w.agents[i].id,
        forall|i: int, j: int|
            0 <= i < w.agents.len() && w.agents[i].id == main_agent_name() && 0 <= j < w.commands.len()
                ==> (#[trigger] started(id, w).agents[i]).subscribe.unwrap().contains(
                #[trigger] w.commands[j].name,
            ),
        forall|i: int, j: int|
            0 <= i < w.agents.len() && w.agents[i].id == main_agent_name() && w.agents[i].subscribe is Some
                && 0 <= j < w.agents[i].subscribe.unwrap().len() ==> (#[trigger] started(id, w).agents[i]).subscribe.unwrap().contains(
                #[trigger] w.agents[i].subscribe.unwrap()[j],
            ),
        forall|i: int|
            0 <= i < w.agents.len() && w.agents[i].id != main_agent_name() ==> (#[trigger] started(
                id,
                w,
            ).agents[i]).subscribe == w.agents[i].subscribe,
{
    assert(started(id, w).state =~= Map::empty());
    assert forall|i: int, j: int|
        0 <= i < w.agents.len() && w.agents[i].id == main_agent_name() && 0 <= j < w.commands.len()
        implies (#[trigger] started(id, w).agents[i]).subscribe.unwrap().contains(
        #[trigger] w.commands[j].name,
    ) by {
        let a = w.agents[i];
        let own = match a.subscribe {
            Some(s) => s,
            None => Seq::empty(),
        };
        let subs = own + command_names(w.commands);
        assert(started(id, w).agents[i] == configured(w, a));
        assert(subs[own.len() + j] == w.commands[j].name);
    }
    assert forall|i: int, j: int|
        0 <= i < w.agents.len() && w.agents[i].id == main_agent_name() && w.agents[i].subscribe is Some
            && 0 <= j < w.agents[i].subscribe.unwrap().len()
        implies (#[trigger] started(id, w).agents[i]).subscribe.unwrap().contains(
        #[trigger] w.agents[i].subscribe.unwrap()[j],
    ) by {
        let a = w.agents[i];
        let own = a.subscribe.unwrap();
        let subs = own + command_names(w.commands);
        assert(started(id, w).agents[i] == configured(w, a));
        assert(subs[j] == own[j]);
    }
}

} // verus!
