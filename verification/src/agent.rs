//! The agent: its settings, its builder and what a run gives back.

use crate::anthropic;
use crate::json;
use crate::json::Json;
use crate::types;
use crate::types::{CerseiError, Message, StopReason, Usage};
use vstd::prelude::*;
use vstd::string::*;

verus! {

/// One call of a tool, as it went.
#[derive(Clone, Debug, PartialEq)]
pub struct ToolCallRecord {
    pub name: String,
    pub id: String,
    pub input: Json,
    pub result: String,
    pub is_error: bool,
    pub duration_nanos: u128,
}

#[verifier::ext_equal]
pub ghost struct RecordView {
    pub name: Seq<char>,
    pub id: Seq<char>,
    pub input: json::JsonView,
    pub result: Seq<char>,
    pub is_error: bool,
    pub duration_nanos: u128,
}

impl View for ToolCallRecord {
    type V = RecordView;

    open spec fn view(&self) -> RecordView {
        RecordView {
            name: self.name@,
            id: self.id@,
            input: self.input@,
            result: self.result@,
            is_error: self.is_error,
            duration_nanos: self.duration_nanos,
        }
    }
}

/// The views of a list of calls.
pub open spec fn records_view(s: Seq<ToolCallRecord>) -> Seq<RecordView> {
    Seq::new(s.len(), |i: int| s[i]@)
}

/// What a run gives back.
#[derive(Clone, Debug, PartialEq)]
pub struct AgentOutput {
    pub message: Message,
    pub usage: Usage,
    pub stop_reason: StopReason,
    pub turns: u32,
    pub tool_calls: Vec<ToolCallRecord>,
}

impl AgentOutput {
    /// The text of the last message: its text, or that of its first text block;
    /// empty where it has none.
    pub fn text(&self) -> (r: &str)
        ensures
            r@ == (match self.message@.content.first_text() {
                Some(t) => t,
                None => Seq::empty(),
            }),
    {
        match self.message.get_text() {
            Some(t) => t,
            None => {
                assert(""@ =~= Seq::<char>::empty()) by {
                    reveal_strlit("");
                }
                ""
            },
        }
    }
}

/// An agent with a provider of type `P` and tools of type `T`.
pub struct Agent<P, T> {
    pub provider: P,
    pub tools: Vec<T>,
    pub system_prompt: Option<String>,
    pub append_system_prompt: Option<String>,
    pub model: Option<String>,
    pub max_turns: u32,
    pub max_tokens: u32,
    pub temperature: Option<Json>,
    pub thinking_budget: Option<u32>,
    pub thinking_disabled: bool,
    pub working_dir: String,
    pub session_id: Option<String>,
    pub broadcast_capacity: Option<usize>,
    pub auto_compact: bool,
    pub compact_threshold: Option<Json>,
    pub tool_result_budget: usize,
    pub turns_elapsed_cadence: u32,
    pub benchmark_mode: bool,
    pub messages: Vec<Message>,
    pub cumulative_usage: Usage,
}

/// Settings for an [`Agent`]. Without a threshold of its own, compaction starts
/// at nine tenths of the context window.
pub struct AgentBuilder<P, T> {
    pub provider: Option<P>,
    pub tools: Vec<T>,
    pub system_prompt: Option<String>,
    pub append_system_prompt: Option<String>,
    pub model: Option<String>,
    pub max_turns: u32,
    pub max_tokens: u32,
    pub temperature: Option<Json>,
    pub thinking_budget: Option<u32>,
    pub thinking_disabled: bool,
    pub seed_usage: Option<Usage>,
    pub working_dir: Option<String>,
    pub session_id: Option<String>,
    pub broadcast_capacity: Option<usize>,
    pub auto_compact: bool,
    pub compact_threshold: Option<Json>,
    pub tool_result_budget: usize,
    pub turns_elapsed_cadence: u32,
    pub initial_messages: Option<Vec<Message>>,
    pub benchmark_mode: bool,
}

impl<P, T> Agent<P, T> {
    /// A builder with the default settings.
    pub fn builder() -> (r: AgentBuilder<P, T>)
        ensures
            r.is_default(),
    {
        AgentBuilder {
            provider: None,
            tools: Vec::new(),
            system_prompt: None,
            append_system_prompt: None,
            model: None,
            max_turns: 10,
            max_tokens: 16384,
            temperature: None,
            thinking_budget: None,
            thinking_disabled: false,
            seed_usage: None,
            working_dir: None,
            session_id: None,
            broadcast_capacity: None,
            auto_compact: true,
            compact_threshold: None,
            tool_result_budget: 50_000,
            turns_elapsed_cadence: 10,
            initial_messages: None,
            benchmark_mode: false,
        }
    }

    /// The conversation so far.
    pub fn messages(&self) -> (r: Vec<Message>)
        ensures
            types::messages_view(r@) == types::messages_view(self.messages@),
    {
        types::copy_messages(&self.messages)
    }

    /// The tokens spent so far.
    pub fn usage(&self) -> (r: Usage)
        ensures
            r == self.cumulative_usage,
    {
        self.cumulative_usage
    }
}

impl<P, T> AgentBuilder<P, T> {
    /// The default settings.
    pub open spec fn is_default(&self) -> bool {
        &&& self.provider is None
        &&& self.tools@.len() == 0
        &&& self.system_prompt is None
        &&& self.append_system_prompt is None
        &&& self.model is None
        &&& self.max_turns == 10
        &&& self.max_tokens == 16384
        &&& self.temperature is None
        &&& self.thinking_budget is None
        &&& !self.thinking_disabled
        &&& self.seed_usage is None
        &&& self.working_dir is None
        &&& self.session_id is None
        &&& self.broadcast_capacity is None
        &&& self.auto_compact
        &&& self.compact_threshold is None
        &&& self.tool_result_budget == 50_000
        &&& self.turns_elapsed_cadence == 10
        &&& self.initial_messages is None
        &&& !self.benchmark_mode
    }

    pub fn provider(self, p: P) -> (r: AgentBuilder<P, T>)
        ensures
            r == (AgentBuilder { provider: Some(p), ..self }),
    {
        AgentBuilder { provider: Some(p), ..self }
    }

    pub fn tool(self, t: T) -> (r: AgentBuilder<P, T>)
        ensures
            r.tools@ == self.tools@.push(t),
            r == (AgentBuilder { tools: r.tools, ..self }),
    {
        let mut tools = self.tools;
        tools.push(t);
        AgentBuilder { tools, ..self }
    }

    pub fn tools(self, ts: Vec<T>) -> (r: AgentBuilder<P, T>)
        ensures
            r.tools@ == self.tools@ + ts@,
            r == (AgentBuilder { tools: r.tools, ..self }),
    {
        let mut tools = self.tools;
        let mut more = ts;
        tools.append(&mut more);
        AgentBuilder { tools, ..self }
    }

    pub fn system_prompt(self, s: String) -> (r: AgentBuilder<P, T>)
        ensures
            r == (AgentBuilder { system_prompt: Some(s), ..self }),
    {
        AgentBuilder { system_prompt: Some(s), ..self }
    }

    pub fn append_system_prompt(self, s: String) -> (r: AgentBuilder<P, T>)
        ensures
            r == (AgentBuilder { append_system_prompt: Some(s), ..self }),
    {
        AgentBuilder { append_system_prompt: Some(s), ..self }
    }

    pub fn model(self, m: String) -> (r: AgentBuilder<P, T>)
        ensures
            r == (AgentBuilder { model: Some(m), ..self }),
    {
        AgentBuilder { model: Some(m), ..self }
    }

    pub fn max_turns(self, n: u32) -> (r: AgentBuilder<P, T>)
        ensures
            r == (AgentBuilder { max_turns: n, ..self }),
    {
        AgentBuilder { max_turns: n, ..self }
    }

    pub fn max_tokens(self, n: u32) -> (r: AgentBuilder<P, T>)
        ensures
            r == (AgentBuilder { max_tokens: n, ..self }),
    {
        AgentBuilder { max_tokens: n, ..self }
    }

    /// The temperature, as a JSON number.
    pub fn temperature(self, t: Json) -> (r: AgentBuilder<P, T>)
        ensures
            r == (AgentBuilder { temperature: Some(t), ..self }),
    {
        AgentBuilder { temperature: Some(t), ..self }
    }

    pub fn thinking_budget(self, tokens: u32) -> (r: AgentBuilder<P, T>)
        ensures
            r == (AgentBuilder { thinking_budget: Some(tokens), ..self }),
    {
        AgentBuilder { thinking_budget: Some(tokens), ..self }
    }

    /// Asks for an explicit "off" for thinking instead of leaving it to the model.
    /// A thinking budget goes before it.
    pub fn disable_thinking(self) -> (r: AgentBuilder<P, T>)
        ensures
            r == (AgentBuilder { thinking_disabled: true, ..self }),
    {
        AgentBuilder { thinking_disabled: true, ..self }
    }

    /// The tokens that were spent before, so that totals carry over.
    pub fn with_cumulative_usage(self, usage: Usage) -> (r: AgentBuilder<P, T>)
        ensures
            r == (AgentBuilder { seed_usage: Some(usage), ..self }),
    {
        AgentBuilder { seed_usage: Some(usage), ..self }
    }

    pub fn working_dir(self, p: String) -> (r: AgentBuilder<P, T>)
        ensures
            r == (AgentBuilder { working_dir: Some(p), ..self }),
    {
        AgentBuilder { working_dir: Some(p), ..self }
    }

    pub fn session_id(self, id: String) -> (r: AgentBuilder<P, T>)
        ensures
            r == (AgentBuilder { session_id: Some(id), ..self }),
    {
        AgentBuilder { session_id: Some(id), ..self }
    }

    pub fn enable_broadcast(self, capacity: usize) -> (r: AgentBuilder<P, T>)
        ensures
            r == (AgentBuilder { broadcast_capacity: Some(capacity), ..self }),
    {
        AgentBuilder { broadcast_capacity: Some(capacity), ..self }
    }

    pub fn auto_compact(self, enabled: bool) -> (r: AgentBuilder<P, T>)
        ensures
            r == (AgentBuilder { auto_compact: enabled, ..self }),
    {
        AgentBuilder { auto_compact: enabled, ..self }
    }

    /// The share of the context window at which compaction starts, as a JSON number.
    pub fn compact_threshold(self, threshold: Json) -> (r: AgentBuilder<P, T>)
        ensures
            r == (AgentBuilder { compact_threshold: Some(threshold), ..self }),
    {
        AgentBuilder { compact_threshold: Some(threshold), ..self }
    }

    pub fn tool_result_budget(self, chars: usize) -> (r: AgentBuilder<P, T>)
        ensures
            r == (AgentBuilder { tool_result_budget: chars, ..self }),
    {
        AgentBuilder { tool_result_budget: chars, ..self }
    }

    /// Every how many turns the elapsed-turns hook fires; 0 for never.
    pub fn turns_elapsed_cadence(self, n: u32) -> (r: AgentBuilder<P, T>)
        ensures
            r == (AgentBuilder { turns_elapsed_cadence: n, ..self }),
    {
        AgentBuilder { turns_elapsed_cadence: n, ..self }
    }

    /// The conversation to start from.
    pub fn with_messages(self, msgs: Vec<Message>) -> (r: AgentBuilder<P, T>)
        ensures
            r == (AgentBuilder { initial_messages: Some(msgs), ..self }),
    {
        AgentBuilder { initial_messages: Some(msgs), ..self }
    }

    pub fn benchmark_mode(self, enabled: bool) -> (r: AgentBuilder<P, T>)
        ensures
            r == (AgentBuilder { benchmark_mode: enabled, ..self }),
    {
        AgentBuilder { benchmark_mode: enabled, ..self }
    }

    /// The agent with these settings. It needs a provider. Without a directory of
    /// its own it works in `current_dir`, or in "." where that is unknown.
    pub fn build(self, current_dir: Option<String>) -> (r: Result<Agent<P, T>, CerseiError>)
        ensures
            match self.provider {
                None => r matches Err(CerseiError::Config(m)) && m@ == "Provider is required"@,
                Some(p) => {
                    &&& r matches Ok(a)
                    &&& a.provider == p
                    &&& a.tools == self.tools
                    &&& a.system_prompt == self.system_prompt
                    &&& a.append_system_prompt == self.append_system_prompt
                    &&& a.model == self.model
                    &&& a.max_turns == self.max_turns
                    &&& a.max_tokens == self.max_tokens
                    &&& a.temperature == self.temperature
                    &&& a.thinking_budget == self.thinking_budget
                    &&& a.thinking_disabled == self.thinking_disabled
                    &&& a.working_dir@ == (match self.working_dir {
                        Some(d) => d@,
                        None => anthropic::setting_or(current_dir, "."@),
                    })
                    &&& a.session_id == self.session_id
                    &&& a.broadcast_capacity == self.broadcast_capacity
                    &&& a.auto_compact == self.auto_compact
                    &&& a.compact_threshold == self.compact_threshold
                    &&& a.tool_result_budget == self.tool_result_budget
                    &&& a.turns_elapsed_cadence == self.turns_elapsed_cadence
                    &&& a.benchmark_mode == self.benchmark_mode
                    &&& match self.initial_messages {
                        Some(m) => a.messages == m,
                        None => a.messages@.len() == 0,
                    }
                    &&& a.cumulative_usage == (match self.seed_usage {
                        Some(u) => u,
                        None => Usage::zero(),
                    })
                },
            },
    {
        let provider = match self.provider {
            Some(p) => p,
            None => {
                return Err(CerseiError::Config("Provider is required".to_string()));
            },
        };
        Ok(
            Agent {
                provider,
                tools: self.tools,
                system_prompt: self.system_prompt,
                append_system_prompt: self.append_system_prompt,
                model: self.model,
                max_turns: self.max_turns,
                max_tokens: self.max_tokens,
                temperature: self.temperature,
                thinking_budget: self.thinking_budget,
                thinking_disabled: self.thinking_disabled,
                working_dir: match self.working_dir {
                    Some(d) => d,
                    None => anthropic::setting(current_dir, "."),
                },
                session_id: self.session_id,
                broadcast_capacity: self.broadcast_capacity,
                auto_compact: self.auto_compact,
                compact_threshold: self.compact_threshold,
                tool_result_budget: self.tool_result_budget,
                turns_elapsed_cadence: self.turns_elapsed_cadence,
                benchmark_mode: self.benchmark_mode,
                messages: match self.initial_messages {
                    Some(m) => m,
                    None => Vec::new(),
                },
                cumulative_usage: match self.seed_usage {
                    Some(u) => u,
                    None => Usage::default(),
                },
            },
        )
    }
}

impl<P, T> Default for AgentBuilder<P, T> {
    fn default() -> (r: AgentBuilder<P, T>)
        ensures
            r.is_default(),
    {
        Agent::<P, T>::builder()
    }
}

/// Whether the elapsed-turns hook fires at a turn: at every multiple of the
/// cadence, and never with a cadence of 0.
pub open spec fn fires_at(turn: u32, cadence: u32) -> bool {
    cadence != 0 && turn > 0 && turn % cadence == 0
}

/// Whether the elapsed-turns hook fires at a turn.
pub fn cadence_due(turn: u32, cadence: u32) -> (r: bool)
    ensures
        r == fires_at(turn, cadence),
{
    cadence != 0 && turn > 0 && turn % cadence == 0
}

/// An agent has ten turns, 16384 tokens for an answer and 50000 characters for results,
/// compacts by itself, and tells of elapsed turns after every tenth, unless it is told
/// otherwise; it starts with no tools, prompts or messages.
pub proof fn agents_have_their_defaults<P, T>(b: AgentBuilder<P, T>)
    requires
        b.is_default(),
    ensures
        b.max_turns == 10,
        b.max_tokens == 16384,
        b.tool_result_budget == 50_000,
        b.turns_elapsed_cadence == 10,
        b.auto_compact,
        !b.thinking_disabled && !b.benchmark_mode,
        b.provider is None && b.tools@.len() == 0 && b.initial_messages is None,
        b.system_prompt is None && b.append_system_prompt is None && b.model is None,
        b.temperature is None && b.thinking_budget is None && b.compact_threshold is None,
        b.seed_usage is None && b.working_dir is None && b.session_id is None,
        b.broadcast_capacity is None,
{
}

/// The elapsed-turns hook fires at the multiples of its cadence and at no other turn.
pub proof fn the_hook_fires_at_multiples(cadence: u32, k: u32, turn: u32)
    requires
        cadence > 0,
        k > 0,
        k * cadence <= u32::MAX,
    ensures
        fires_at((k * cadence) as u32, cadence),
        k * cadence < turn < (k + 1) * cadence ==> !fires_at(turn, cadence),
        !fires_at(turn, 0),
        !fires_at(0, cadence),
{
    let a = k as int;
    let c = cadence as int;
    let t = turn as int;
    assert(a * c > 0) by (nonlinear_arith)
        requires
            a > 0,
            c > 0,
    ;
    assert((a * c) % c == 0) by (nonlinear_arith)
        requires
            c > 0,
    ;
    if a * c < t && t < (a + 1) * c {
        assert(t % c != 0) by (nonlinear_arith)
            requires
                c > 0,
                a * c < t,
                t < (a + 1) * c,
        {
            assert(t == c * (t / c) + t % c);
            if t % c == 0 {
                assert(t / c > a);
                assert(c * (t / c) >= c * (a + 1));
            }
        }
    }
}

} // verus!
