use vstd::prelude::*;

verus! {

/// The name by which an agent is known.
#[derive(Debug, Eq, Hash)]
pub struct AgentId(String);

impl View for AgentId {
    type V = Seq<char>;

    closed spec fn view(&self) -> Seq<char> {
        self.0@
    }
}

impl Clone for AgentId {
    fn clone(&self) -> (r: Self)
        ensures
            r@ == self@,
    {
        AgentId(self.0.clone())
    }
}

impl PartialEq for AgentId {
    fn eq(&self, other: &Self) -> (r: bool) {
        self.0 == other.0
    }
}

impl vstd::std_specs::cmp::PartialEqSpecImpl for AgentId {
    open spec fn obeys_eq_spec() -> bool {
        true
    }

    open spec fn eq_spec(&self, other: &Self) -> bool {
        self@ == other@
    }
}

impl AgentId {
    /// The agent id with this name.
    pub fn new(name: &str) -> (id: Self)
        ensures
            id@ == name@,
    {
        AgentId(name.to_owned())
    }

    /// The name, as text.
    pub fn as_str(&self) -> (name: &str)
        ensures
            name@ == self@,
    {
        self.0.as_str()
    }

    /// A copy of the name, as an owned text.
    pub fn to_text(&self) -> (name: String)
        ensures
            name@ == self@,
    {
        self.0.clone()
    }
}

/// The name of a model that an agent runs on.
#[derive(Debug, Eq, Hash)]
pub struct ModelId(String);

impl View for ModelId {
    type V = Seq<char>;

    closed spec fn view(&self) -> Seq<char> {
        self.0@
    }
}

impl Clone for ModelId {
    fn clone(&self) -> (r: Self)
        ensures
            r@ == self@,
    {
        ModelId(self.0.clone())
    }
}

impl PartialEq for ModelId {
    fn eq(&self, other: &Self) -> (r: bool) {
        self.0 == other.0
    }
}

impl vstd::std_specs::cmp::PartialEqSpecImpl for ModelId {
    open spec fn obeys_eq_spec() -> bool {
        true
    }

    open spec fn eq_spec(&self, other: &Self) -> bool {
        self@ == other@
    }
}

impl ModelId {
    /// The model id with this name.
    pub fn new(name: &str) -> (id: Self)
        ensures
            id@ == name@,
    {
        ModelId(name.to_owned())
    }

    /// The name, as text.
    pub fn as_str(&self) -> (name: &str)
        ensures
            name@ == self@,
    {
        self.0.as_str()
    }
}

/// A sampling temperature, held as the bit pattern of its `f32` value so
/// that the model carries it without reading it.
#[derive(Debug, Clone, Copy, PartialEq, Eq, Structural)]
pub struct Temperature {
    pub bits: u32,
}

impl Temperature {
    /// The temperature whose `f32` value has this bit pattern.
    pub fn from_bits(bits: u32) -> (t: Self)
        ensures
            t.bits == bits,
    {
        Temperature { bits }
    }

    /// The bit pattern of the temperature's `f32` value.
    pub fn to_bits(&self) -> (bits: u32)
        ensures
            bits == self.bits,
    {
        self.bits
    }
}

/// The texts of a list of strings.
pub open spec fn texts(v: Seq<String>) -> Seq<Seq<char>> {
    v.map_values(|s: String| s@)
}

/// A copy of a list of strings.
pub fn clone_strings(v: &Vec<String>) -> (r: Vec<String>)
    ensures
        r@ == v@,
{
    let mut r: Vec<String> = Vec::new();
    let mut i: usize = 0;
    while i < v.len()
        invariant
            i <= v.len(),
            r@ == v@.take(i as int),
        decreases v.len() - i,
    {
        r.push(v[i].clone());
        i = i + 1;
    }
    assert(v@.take(v.len() as int) == v@);
    r
}

/// Whether the list holds this text.
pub fn contains_text(v: &Vec<String>, s: &String) -> (b: bool)
    ensures
        b == texts(v@).contains(s@),
{
    let mut i: usize = 0;
    while i < v.len()
        invariant
            i <= v.len(),
            forall|j: int| 0 <= j < i ==> #[trigger] v@[j]@ != s@,
        decreases v.len() - i,
    {
        if v[i] == *s {
            assert(texts(v@)[i as int] == s@);
            return true;
        }
        i = i + 1;
    }
    assert forall|j: int| 0 <= j < texts(v@).len() implies texts(v@)[j] != s@ by {
        assert(texts(v@)[j] == v@[j]@);
    }
    false
}

/// A copy of an optional text.
pub fn clone_opt_string(s: &Option<String>) -> (r: Option<String>)
    ensures
        r == *s,
{
    match s {
        Some(t) => Some(t.clone()),
        None => None,
    }
}

/// The settings of one agent that the conversation model reads or changes.
#[derive(Debug)]
pub struct Agent {
    /// The agent's name.
    pub id: AgentId,
    /// The model the agent runs on, if set.
    pub model: Option<ModelId>,
    /// The names of the events the agent listens to.
    pub subscribe: Option<Vec<String>>,
    /// How many turns the agent may take, if limited.
    pub max_turns: Option<u64>,
    /// How deep the agent may walk a directory tree, if set.
    pub max_walker_depth: Option<usize>,
    /// Extra rules handed to the agent, if set.
    pub custom_rules: Option<String>,
    /// The agent's sampling temperature, if set.
    pub temperature: Option<Temperature>,
    /// Whether the agent is switched off.
    pub disable: Option<bool>,
}

/// An agent's settings as plain values.
pub struct AgentView {
    pub id: Seq<char>,
    pub model: Option<Seq<char>>,
    pub subscribe: Option<Seq<Seq<char>>>,
    pub max_turns: Option<u64>,
    pub max_walker_depth: Option<usize>,
    pub custom_rules: Option<Seq<char>>,
    pub temperature: Option<Temperature>,
    pub disable: Option<bool>,
}

/// The text of an optional model id.
pub open spec fn model_view(m: Option<ModelId>) -> Option<Seq<char>> {
    match m {
        Some(id) => Some(id@),
        None => None,
    }
}

/// The text of an optional string.
pub open spec fn text_view(s: Option<String>) -> Option<Seq<char>> {
    match s {
        Some(t) => Some(t@),
        None => None,
    }
}

/// The texts of an optional list of strings.
pub open spec fn texts_view(v: Option<Vec<String>>) -> Option<Seq<Seq<char>>> {
    match v {
        Some(l) => Some(texts(l@)),
        None => None,
    }
}

impl View for Agent {
    type V = AgentView;

    open spec fn view(&self) -> AgentView {
        AgentView {
            id: self.id@,
            model: model_view(self.model),
            subscribe: texts_view(self.subscribe),
            max_turns: self.max_turns,
            max_walker_depth: self.max_walker_depth,
            custom_rules: text_view(self.custom_rules),
            temperature: self.temperature,
            disable: self.disable,
        }
    }
}

impl Clone for Agent {
    fn clone(&self) -> (r: Self)
        ensures
            r@ == self@,
    {
        let model = match &self.model {
            Some(m) => Some(m.clone()),
            None => None,
        };
        let subscribe = match &self.subscribe {
            Some(v) => Some(clone_strings(v)),
            None => None,
        };
        Agent {
            id: self.id.clone(),
            model,
            subscribe,
            max_turns: self.max_turns,
            max_walker_depth: self.max_walker_depth,
            custom_rules: clone_opt_string(&self.custom_rules),
            temperature: self.temperature,
            disable: self.disable,
        }
    }
}

impl Agent {
    /// An agent with this name and no other setting.
    pub fn new(id: &str) -> (agent: Self)
        ensures
            agent@ == (AgentView {
                id: id@,
                model: None,
                subscribe: None,
                max_turns: None,
                max_walker_depth: None,
                custom_rules: None,
                temperature: None,
                disable: None,
            }),
    {
        Agent {
            id: AgentId::new(id),
            model: None,
            subscribe: None,
            max_turns: None,
            max_walker_depth: None,
            custom_rules: None,
            temperature: None,
            disable: None,
        }
    }
}

} // verus!
