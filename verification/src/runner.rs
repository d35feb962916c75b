//! The agent run: the decisions between one piece of outside work and the next.
//!
//! A run alternates work that reaches outside (asking the provider, running tools
//! and hooks, waiting, saving) with decisions. [`AgentRun`] holds the state of a
//! run. Each of its methods takes what came of one piece of work and returns the
//! events to announce and the work to do next.

use crate::agent;
use crate::agent::{Agent, AgentOutput, ToolCallRecord};
use crate::anthropic;
use crate::benchmark;
use crate::benchmark::BenchmarkVerification;
use crate::json;
use crate::json::Json;
use crate::keyed::{Counts, TextSet};
use crate::stream;
use crate::stream::StreamAccumulator;
use crate::text;
use crate::tool_results;
use crate::types;
use crate::types::{
    CerseiError, CompletionRequest, ContentBlock, Message, MessageContent, ProviderOptions, Role,
    StopReason, StreamEvent, ToolDefinition, ToolResultContent, Usage,
};
use vstd::prelude::*;
use vstd::string::*;

verus! {

/// How often a request is made again after a failure.
pub const MAX_RETRIES: u32 = 5;

/// How often in a row a response may stop at its token limit.
pub const MAX_TOKENS_RETRY_LIMIT: u32 = 3;

/// How often failed tests are handed back to the model.
pub const BENCHMARK_MAX_RETRIES: u32 = 4;

/// The failures of a tool after which no attempts remain.
pub const MAX_TOOL_ERRORS_PER_TOOL: u32 = 3;

pub const ANALYSIS_HINT: &'static str =
    "\n\n[system hint: The project_intel section in your context shows the most important files ranked by dependency graph analysis (tree-sitter). Use parallel Read calls to read those files — entry points, stores, commands, and type files listed there. Read at least 10 files before writing output. Focus on files with the most symbols and imports.]";

pub const VERIFY_NUDGE: &'static str =
    "[system] Before finishing, verify your solution is correct:\n1. Check that all expected output files exist and have correct content\n2. Run your solution to confirm it produces the right output\n3. Re-read the original instruction — did you satisfy EVERY requirement?";

pub const RUN_TESTS_NUDGE: &'static str =
    "[system] The task instruction mentions a verification command. Run it now to check your solution. Look at the instruction again for the exact command.";

pub const DEPTH_NUDGE: &'static str =
    "[system] Your analysis is not deep enough yet. You MUST read actual source code files before writing a summary. Use Read to examine at least 8-10 source files (stores, components, commands, types, configs). Use parallel Read calls. Do NOT write the final output until you have read enough source files to provide specific details about implementations, not just file names.";

pub const DOOM_LOOP_NUDGE: &'static str =
    "[system] You are stuck in a repetitive loop. Your recent tool calls are repeating the same pattern. STOP and reconsider:\n1. What exactly is going wrong? Read the error messages carefully.\n2. Is there a COMPLETELY different approach to this problem?\n3. Try a different tool, different arguments, or a different algorithm.\nDo NOT repeat the same commands.";

pub const CONTINUE_NUDGE: &'static str = "Continue from exactly where you stopped.";

// ─── Waiting between attempts ────────────────────────────────────────────────

/// A number that looks random, from the nanoseconds of the clock.
pub fn jitter_from(seed: u64) -> (r: u64)
    ensures
        r == seed ^ (seed >> 16) ^ (seed << 7),
{
    seed ^ (seed >> 16) ^ (seed << 7)
}

/// The base delay before an attempt: a second, doubled each time, at most half a
/// minute.
pub open spec fn base_delay(retry: int) -> int {
    let d = 1000 * vstd::arithmetic::power2::pow2((retry - 1) as nat);
    if d > 30_000 {
        30_000
    } else {
        d as int
    }
}

/// The delay in milliseconds before attempt number `retry` is repeated. `random`
/// spreads it by up to a quarter.
pub fn backoff_delay(retry: u32, random: u64) -> (r: u64)
    requires
        1 <= retry <= 55,
    ensures
        r == base_delay(retry as int) + (random as int) % (base_delay(retry as int) / 4),
{
    let mut delay: u64 = 1000;
    let mut i: u32 = 1;
    proof {
        vstd::arithmetic::power2::lemma2_to64();
    }
    while i < retry && delay < 30_000
        invariant
            1 <= i <= retry <= 55,
            delay == 1000 * vstd::arithmetic::power2::pow2((i - 1) as nat),
            delay < 60_000,
        decreases retry - i,
    {
        proof {
            vstd::arithmetic::power2::lemma_pow2_unfold(i as nat);
        }
        delay = delay * 2;
        i = i + 1;
    }
    proof {
        if i < retry {
            if i > 1 {
                vstd::arithmetic::power2::lemma_pow2_strictly_increases(
                    (i - 1) as nat,
                    (retry - 1) as nat,
                );
            } else {
                vstd::arithmetic::power2::lemma_pow2_strictly_increases(0, (retry - 1) as nat);
            }
        }
    }
    let delay: u64 = if delay > 30_000 {
        30_000
    } else {
        delay
    };
    assert(delay == base_delay(retry as int));
    assert(delay >= 1000) by {
        vstd::arithmetic::power2::lemma_pow2_pos((retry - 1) as nat);
    }
    let jitter: u64 = delay / 4;
    delay + random % jitter
}

/// The delay is never under a second, never over the base delay and a quarter.
pub proof fn backoff_is_bounded(retry: int, random: int)
    requires
        retry >= 1,
        random >= 0,
    ensures
        ({
            let base = base_delay(retry);
            let d = base + random % (base / 4);
            &&& 1_000 <= base <= 30_000
            &&& base <= d < base + base / 4
        }),
{
    vstd::arithmetic::power2::lemma_pow2_pos((retry - 1) as nat);
}

// ─── Settings and events ─────────────────────────────────────────────────────

/// What a run goes by.
#[derive(Clone, Debug, PartialEq)]
pub struct RunSettings {
    pub model: Option<String>,
    /// The model that is asked where the agent names none.
    pub default_model: String,
    pub max_turns: u32,
    pub max_tokens: u32,
    pub temperature: Option<Json>,
    pub thinking_budget: Option<u32>,
    pub thinking_disabled: bool,
    pub system_prompt: Option<String>,
    pub session_id: Option<String>,
    pub has_memory: bool,
    pub auto_compact: bool,
    pub tool_result_budget: usize,
    pub turns_elapsed_cadence: u32,
    pub benchmark_mode: bool,
}

/// An event that a run announces.
#[derive(Clone, Debug, PartialEq)]
pub enum AgentEvent {
    SessionLoaded { session_id: String, message_count: usize },
    TurnStart { turn: u32 },
    ModelRequestStart { turn: u32, message_count: usize },
    ModelResponseStart { turn: u32, model: String },
    TextDelta(String),
    ThinkingDelta(String),
    CostUpdate { turn_usage: Usage, cumulative: Usage },
    TurnComplete { turn: u32, stop_reason: StopReason, usage: Usage },
    ToolStart { name: String, id: String, input: Json },
    ToolEnd { name: String, id: String, result: String, is_error: bool, duration_nanos: u128 },
    Status(String),
    SessionSaved { session_id: String },
}

#[verifier::ext_equal]
pub ghost enum Announced {
    SessionLoaded { session_id: Seq<char>, message_count: int },
    TurnStart { turn: u32 },
    ModelRequestStart { turn: u32, message_count: int },
    ModelResponseStart { turn: u32, model: Seq<char> },
    TextDelta(Seq<char>),
    ThinkingDelta(Seq<char>),
    CostUpdate { turn_usage: Usage, cumulative: Usage },
    TurnComplete { turn: u32, stop_reason: StopReason, usage: Usage },
    ToolStart { name: Seq<char>, id: Seq<char>, input: json::JsonView },
    ToolEnd {
        name: Seq<char>,
        id: Seq<char>,
        result: Seq<char>,
        is_error: bool,
        duration_nanos: u128,
    },
    Status(Seq<char>),
    SessionSaved { session_id: Seq<char> },
}

impl View for AgentEvent {
    type V = Announced;

    open spec fn view(&self) -> Announced {
        match self {
            AgentEvent::SessionLoaded { session_id, message_count } => Announced::SessionLoaded {
                session_id: session_id@,
                message_count: *message_count as int,
            },
            AgentEvent::TurnStart { turn } => Announced::TurnStart { turn: *turn },
            AgentEvent::ModelRequestStart { turn, message_count } => {
                Announced::ModelRequestStart { turn: *turn, message_count: *message_count as int }
            },
            AgentEvent::ModelResponseStart { turn, model } => Announced::ModelResponseStart {
                turn: *turn,
                model: model@,
            },
            AgentEvent::TextDelta(t) => Announced::TextDelta(t@),
            AgentEvent::ThinkingDelta(t) => Announced::ThinkingDelta(t@),
            AgentEvent::CostUpdate { turn_usage, cumulative } => Announced::CostUpdate {
                turn_usage: *turn_usage,
                cumulative: *cumulative,
            },
            AgentEvent::TurnComplete { turn, stop_reason, usage } => Announced::TurnComplete {
                turn: *turn,
                stop_reason: *stop_reason,
                usage: *usage,
            },
            AgentEvent::ToolStart { name, id, input } => Announced::ToolStart {
                name: name@,
                id: id@,
                input: input@,
            },
            AgentEvent::ToolEnd { name, id, result, is_error, duration_nanos } => {
                Announced::ToolEnd {
                    name: name@,
                    id: id@,
                    result: result@,
                    is_error: *is_error,
                    duration_nanos: *duration_nanos,
                }
            },
            AgentEvent::Status(s) => Announced::Status(s@),
            AgentEvent::SessionSaved { session_id } => Announced::SessionSaved {
                session_id: session_id@,
            },
        }
    }
}

/// The views of a list of events.
pub open spec fn announced(s: Seq<AgentEvent>) -> Seq<Announced> {
    Seq::new(s.len(), |i: int| s[i]@)
}

/// Whether observers are told of an event, besides the stream of the run.
pub open spec fn observed(e: Announced) -> bool {
    !(e is ModelRequestStart || e is ModelResponseStart || e is Status)
}

impl AgentEvent {
    /// Whether observers are told of this event, besides the stream of the run.
    pub fn to_observers(&self) -> (r: bool)
        ensures
            r == observed(self@),
    {
        match self {
            AgentEvent::ModelRequestStart { .. } => false,
            AgentEvent::ModelResponseStart { .. } => false,
            AgentEvent::Status(_) => false,
            _ => true,
        }
    }
}

/// A call of a tool that the model asks for.
#[derive(Clone, Debug, PartialEq)]
pub struct ToolUse {
    pub id: String,
    pub name: String,
    pub input: Json,
}

#[verifier::ext_equal]
pub ghost struct UseView {
    pub id: Seq<char>,
    pub name: Seq<char>,
    pub input: json::JsonView,
}

impl View for ToolUse {
    type V = UseView;

    open spec fn view(&self) -> UseView {
        UseView { id: self.id@, name: self.name@, input: self.input@ }
    }
}

/// The views of a list of calls.
pub open spec fn uses_view(s: Seq<ToolUse>) -> Seq<UseView> {
    Seq::new(s.len(), |i: int| s[i]@)
}

/// The work that a run needs done outside before it can go on.
#[derive(Debug, PartialEq)]
pub enum Work {
    /// Load the history of a session.
    LoadHistory { session_id: String },
    /// Look for a cancellation and count the open tasks, then begin a turn.
    BeginTurn,
    /// Ask the provider.
    Complete(CompletionRequest),
    /// Wait, then ask the provider the same again.
    Backoff { retry: u32 },
    /// Read the next event of the response.
    ReadStream,
    /// Run the hooks that follow a response.
    RunHooks { message_count: usize },
    /// Run the hooks for elapsed turns.
    TurnsElapsed,
    /// Run tools.
    RunTools(Vec<ToolUse>),
    /// See whether the conversation needs compaction.
    Compact,
    /// Shorten the conversation without a summary.
    Snip,
    /// Save the session.
    SaveSession { session_id: String },
    /// Nothing; the run is over.
    Finish,
    /// Nothing; the run has failed.
    Fail(CerseiError),
}

#[verifier::ext_equal]
pub ghost enum WorkView {
    LoadHistory { session_id: Seq<char> },
    BeginTurn,
    Complete(types::RequestView),
    Backoff { retry: u32 },
    ReadStream,
    RunHooks { message_count: int },
    TurnsElapsed,
    RunTools(Seq<UseView>),
    Compact,
    Snip,
    SaveSession { session_id: Seq<char> },
    Finish,
    Fail(FailView),
}

/// Why a run failed.
#[verifier::ext_equal]
pub ghost enum FailView {
    Auth(Seq<char>),
    Config(Seq<char>),
    Provider(Seq<char>),
    Http { status: u16, message: Seq<char> },
    Transport(Seq<char>),
    Memory(Seq<char>),
    Tool(Seq<char>),
    Cancelled,
}

impl FailView {
    /// Another attempt may succeed.
    pub open spec fn retryable(self) -> bool {
        match self {
            FailView::Transport(_) => true,
            FailView::Http { status, .. } => status == 429 || status >= 500,
            _ => false,
        }
    }
}

/// The error by its text.
pub open spec fn fail_view(e: CerseiError) -> FailView {
    match e {
        CerseiError::Auth(m) => FailView::Auth(m@),
        CerseiError::Config(m) => FailView::Config(m@),
        CerseiError::Provider(m) => FailView::Provider(m@),
        CerseiError::Http { status, message } => FailView::Http { status, message: message@ },
        CerseiError::Transport(m) => FailView::Transport(m@),
        CerseiError::Memory(m) => FailView::Memory(m@),
        CerseiError::Tool(m) => FailView::Tool(m@),
        CerseiError::Cancelled => FailView::Cancelled,
    }
}

impl View for Work {
    type V = WorkView;

    open spec fn view(&self) -> WorkView {
        match self {
            Work::LoadHistory { session_id } => WorkView::LoadHistory { session_id: session_id@ },
            Work::BeginTurn => WorkView::BeginTurn,
            Work::Complete(r) => WorkView::Complete(r@),
            Work::Backoff { retry } => WorkView::Backoff { retry: *retry },
            Work::ReadStream => WorkView::ReadStream,
            Work::RunHooks { message_count } => WorkView::RunHooks {
                message_count: *message_count as int,
            },
            Work::TurnsElapsed => WorkView::TurnsElapsed,
            Work::RunTools(t) => WorkView::RunTools(uses_view(t@)),
            Work::Compact => WorkView::Compact,
            Work::Snip => WorkView::Snip,
            Work::SaveSession { session_id } => WorkView::SaveSession { session_id: session_id@ },
            Work::Finish => WorkView::Finish,
            Work::Fail(e) => WorkView::Fail(fail_view(*e)),
        }
    }
}

/// What to announce, and what to do next.
#[derive(Debug, PartialEq)]
pub struct Step {
    pub events: Vec<AgentEvent>,
    pub work: Work,
}

#[verifier::ext_equal]
pub ghost struct StepView {
    pub events: Seq<Announced>,
    pub work: WorkView,
}

impl View for Step {
    type V = StepView;

    open spec fn view(&self) -> StepView {
        StepView { events: announced(self.events@), work: self.work@ }
    }
}

// ─── The state of a run ──────────────────────────────────────────────────────

/// The state of a run.
pub struct AgentRun {
    pub settings: RunSettings,
    pub prompt: String,
    pub messages: Vec<Message>,
    pub usage: Usage,
    pub turn_usage: Usage,
    pub tool_calls: Vec<ToolCallRecord>,
    pub turn: u32,
    pub last_stop_reason: StopReason,
    pub max_tokens_retries: u32,
    pub had_tool_use: bool,
    pub depth_nudge_sent: bool,
    pub benchmark_retries: u32,
    pub doom_loop_warned: bool,
    pub completion_verified: bool,
    pub files_read: TextSet,
    pub tool_errors: Counts,
    pub retry_count: u32,
    pub accumulator: StreamAccumulator,
    pub results: Vec<ContentBlock>,
}

/// The state of a run, with its texts as sequences.
#[verifier::ext_equal]
pub ghost struct RunView {
    pub settings: RunSettings,
    pub prompt: Seq<char>,
    pub messages: Seq<types::MessageView>,
    pub usage: Usage,
    pub turn_usage: Usage,
    pub calls: Seq<agent::RecordView>,
    pub turn: u32,
    pub last_stop_reason: StopReason,
    pub max_tokens_retries: u32,
    pub had_tool_use: bool,
    pub depth_nudge_sent: bool,
    pub benchmark_retries: u32,
    pub doom_loop_warned: bool,
    pub completion_verified: bool,
    pub files_read: Set<Seq<char>>,
    pub tool_errors: Map<Seq<char>, u32>,
    pub retry_count: u32,
    pub acc: stream::Accumulated,
    pub results: Seq<types::BlockView>,
}

impl View for AgentRun {
    type V = RunView;

    open spec fn view(&self) -> RunView {
        RunView {
            settings: self.settings,
            prompt: self.prompt@,
            messages: types::messages_view(self.messages@),
            usage: self.usage,
            turn_usage: self.turn_usage,
            calls: agent::records_view(self.tool_calls@),
            turn: self.turn,
            last_stop_reason: self.last_stop_reason,
            max_tokens_retries: self.max_tokens_retries,
            had_tool_use: self.had_tool_use,
            depth_nudge_sent: self.depth_nudge_sent,
            benchmark_retries: self.benchmark_retries,
            doom_loop_warned: self.doom_loop_warned,
            completion_verified: self.completion_verified,
            files_read: self.files_read@,
            tool_errors: self.tool_errors@,
            retry_count: self.retry_count,
            acc: self.accumulator@,
            results: types::blocks_view(self.results@),
        }
    }
}

/// A prompt that asks for an analysis.
pub open spec fn is_analysis(prompt: Seq<char>) -> bool {
    ||| text::occurs("index"@, prompt)
    ||| text::occurs("analyze"@, prompt)
    ||| text::occurs("explore"@, prompt)
    ||| text::occurs("understand"@, prompt)
    ||| text::occurs("tell me about"@, prompt)
    ||| text::occurs("summary"@, prompt)
}

/// The prompt as the model gets it: with a hint where it asks for an analysis.
pub open spec fn expanded(prompt: Seq<char>) -> Seq<char> {
    if is_analysis(prompt) {
        prompt + ANALYSIS_HINT@
    } else {
        prompt
    }
}

/// The prompt as the model gets it.
pub fn expand_prompt(prompt: &str) -> (r: String)
    ensures
        r@ == expanded(prompt@),
{
    let analysis = text::contains(prompt, "index") || text::contains(prompt, "analyze")
        || text::contains(prompt, "explore") || text::contains(prompt, "understand")
        || text::contains(prompt, "tell me about") || text::contains(prompt, "summary");
    if analysis {
        text::cat(prompt, ANALYSIS_HINT)
    } else {
        prompt.to_string()
    }
}

/// The model that a run asks.
pub open spec fn model_of(settings: RunSettings) -> Seq<char> {
    anthropic::setting_or(settings.model, settings.default_model@)
}

/// The options of a request: a thinking budget, else an explicit "off".
pub open spec fn options_of(settings: RunSettings) -> Map<Seq<char>, json::JsonView> {
    match settings.thinking_budget {
        Some(b) => Map::empty().insert("thinking_budget"@, json::JsonView::UInt(b as u64)),
        None => if settings.thinking_disabled {
            Map::empty().insert("thinking_disabled"@, json::JsonView::Bool(true))
        } else {
            Map::empty()
        },
    }
}

/// The reminder of open tasks.
pub open spec fn todo_nudge(incomplete: nat) -> Seq<char> {
    "\n\n[system reminder: You have "@ + text::decimal(incomplete) + " incomplete task"@ + (
    if incomplete == 1 {
        ""@
    } else {
        "s"@
    })
        + " in your TodoWrite list. Make sure to complete all tasks before ending your response. Use tools to make progress on each task.]"@
}

/// The system prompt of a turn: from the third turn on with a reminder of open
/// tasks.
pub open spec fn system_of(settings: RunSettings, turn: u32, incomplete: nat) -> Option<Seq<char>> {
    match settings.system_prompt {
        Some(s) => Some(
            if turn > 2 && incomplete > 0 {
                s@ + todo_nudge(incomplete)
            } else {
                s@
            },
        ),
        None => None,
    }
}

/// The request of a turn.
pub open spec fn request_of(
    settings: RunSettings,
    messages: Seq<types::MessageView>,
    tools: Seq<types::ToolView>,
    turn: u32,
    incomplete: nat,
) -> types::RequestView {
    types::RequestView {
        model: model_of(settings),
        messages,
        system: system_of(settings, turn, incomplete),
        tools,
        max_tokens: settings.max_tokens,
        temperature: match settings.temperature {
            Some(t) => Some(t@),
            None => None,
        },
        stop_sequences: Seq::empty(),
        options: options_of(settings),
    }
}

/// The work at the end of a run: the session is saved where there is one.
pub open spec fn closing_work(settings: RunSettings) -> WorkView {
    if settings.has_memory && settings.session_id is Some {
        WorkView::SaveSession { session_id: settings.session_id->0@ }
    } else {
        WorkView::Finish
    }
}

/// The work after a turn that goes on.
pub open spec fn compaction_work(settings: RunSettings) -> WorkView {
    if settings.auto_compact {
        WorkView::Compact
    } else {
        WorkView::BeginTurn
    }
}

/// Nothing to announce, and `work` to do.
pub open spec fn quietly(work: WorkView) -> StepView {
    StepView { events: Seq::empty(), work }
}

impl RunView {
    /// The run at its start.
    pub open spec fn initial(
        settings: RunSettings,
        prompt: Seq<char>,
        messages: Seq<types::MessageView>,
        usage: Usage,
    ) -> RunView {
        RunView {
            settings,
            prompt,
            messages,
            usage,
            turn_usage: Usage::zero(),
            calls: Seq::empty(),
            turn: 0,
            last_stop_reason: StopReason::EndTurn,
            max_tokens_retries: 0,
            had_tool_use: false,
            depth_nudge_sent: false,
            benchmark_retries: 0,
            doom_loop_warned: false,
            completion_verified: false,
            files_read: Set::empty(),
            tool_errors: Map::empty(),
            retry_count: 0,
            acc: stream::Accumulated::empty(),
            results: Seq::empty(),
        }
    }

    /// The run with one more message of the user.
    pub open spec fn told(self, text: Seq<char>) -> RunView {
        RunView {
            messages: self.messages.push(types::MessageView::plain(Role::User, text)),
            ..self
        }
    }

    /// Whether the history of the session is loaded first.
    pub open spec fn loads_history(self) -> bool {
        self.messages.len() == 0 && self.settings.has_memory && self.settings.session_id is Some
    }

    /// What a loaded history makes of the run.
    pub open spec fn with_history(self, history: Seq<types::MessageView>) -> RunView {
        RunView { messages: self.messages + history, ..self }.told(expanded(self.prompt))
    }

    /// What is announced of a loaded history.
    pub open spec fn history_step(self, history: Seq<types::MessageView>) -> StepView {
        StepView {
            events: if history.len() > 0 {
                seq![
                    Announced::SessionLoaded {
                        session_id: anthropic::setting_or(self.settings.session_id, Seq::empty()),
                        message_count: history.len() as int,
                    },
                ]
            } else {
                Seq::empty()
            },
            work: WorkView::BeginTurn,
        }
    }

    /// The run with its next turn begun.
    pub open spec fn turned(self, cancelled: bool) -> RunView {
        let turn = (self.turn + 1) as u32;
        if turn > self.settings.max_turns || cancelled {
            RunView { turn, ..self }
        } else {
            RunView {
                turn,
                retry_count: 0,
                messages: tool_results::budgeted(
                    self.messages,
                    self.settings.tool_result_budget as int,
                ),
                ..self
            }
        }
    }

    /// The step that begins a turn.
    pub open spec fn turn_step(
        self,
        cancelled: bool,
        incomplete: nat,
        tools: Seq<types::ToolView>,
    ) -> StepView {
        let next = self.turned(cancelled);
        if next.turn > self.settings.max_turns {
            quietly(closing_work(self.settings))
        } else if cancelled {
            quietly(WorkView::Fail(FailView::Cancelled))
        } else {
            StepView {
                events: seq![
                    Announced::TurnStart { turn: next.turn },
                    Announced::ModelRequestStart {
                        turn: next.turn,
                        message_count: next.messages.len() as int,
                    },
                ],
                work: WorkView::Complete(
                    request_of(self.settings, next.messages, tools, next.turn, incomplete),
                ),
            }
        }
    }

    /// Whether a failed request is made again.
    pub open spec fn retries(self, error: FailView) -> bool {
        error.retryable() && self.retry_count < MAX_RETRIES
    }

    /// The run after a failed request.
    pub open spec fn after_failure(self, again: bool) -> RunView {
        if again {
            RunView { retry_count: (self.retry_count + 1) as u32, ..self }
        } else {
            self
        }
    }

    /// The step after a failed request.
    pub open spec fn failure_step(self, error: FailView, again: bool) -> StepView {
        quietly(
            if again {
                WorkView::Backoff { retry: (self.retry_count + 1) as u32 }
            } else {
                WorkView::Fail(error)
            },
        )
    }

    /// The run when the provider has taken a request.
    pub open spec fn answered(self) -> RunView {
        RunView { acc: stream::Accumulated::empty(), ..self }
    }

    /// The step when the provider has taken a request.
    pub open spec fn answered_step(self) -> StepView {
        StepView {
            events: seq![
                Announced::ModelResponseStart { turn: self.turn, model: model_of(self.settings) },
            ],
            work: WorkView::ReadStream,
        }
    }

    /// The run after an event of the response.
    pub open spec fn streamed(self, event: types::EventView) -> RunView {
        match event {
            types::EventView::Error { message, kind } => self.after_failure(
                self.retries_stream(kind_error(kind, message)),
            ),
            _ => RunView { acc: self.acc.after(event), ..self },
        }
    }

    /// Whether a request whose response failed is made again: only while the
    /// provider has not started to respond.
    pub open spec fn retries_stream(self, error: FailView) -> bool {
        self.acc.message_id is None && self.retries(error)
    }

    /// The step after an event of the response.
    pub open spec fn stream_step(self, event: types::EventView) -> StepView {
        match event {
            types::EventView::TextDelta { text, .. } => StepView {
                events: seq![Announced::TextDelta(text)],
                work: WorkView::ReadStream,
            },
            types::EventView::ThinkingDelta { thinking, .. } => StepView {
                events: seq![Announced::ThinkingDelta(thinking)],
                work: WorkView::ReadStream,
            },
            types::EventView::Error { message, kind } => {
                let error = kind_error(kind, message);
                self.failure_step(error, self.retries_stream(error))
            },
            _ => quietly(WorkView::ReadStream),
        }
    }

    /// The run when a response is complete.
    pub open spec fn responded(self) -> RunView {
        RunView {
            last_stop_reason: self.acc.final_stop_reason(),
            turn_usage: self.acc.usage,
            usage: self.usage.plus(self.acc.usage),
            messages: self.messages.push(self.acc.message()),
            acc: stream::Accumulated::empty(),
            ..self
        }
    }

    /// The step when a response is complete.
    pub open spec fn response_step(self) -> StepView {
        StepView {
            events: seq![
                Announced::CostUpdate {
                    turn_usage: self.acc.usage,
                    cumulative: self.usage.plus(self.acc.usage),
                },
            ],
            work: WorkView::RunHooks { message_count: (self.messages.len() + 1) as int },
        }
    }
}

/// The error of a kind, with a message.
pub open spec fn kind_error(kind: types::StreamErrorKind, message: Seq<char>) -> FailView {
    match kind {
        types::StreamErrorKind::Http { status } => FailView::Http { status, message },
        types::StreamErrorKind::Transport => FailView::Transport(message),
        types::StreamErrorKind::Provider => FailView::Provider(message),
    }
}

fn quiet(work: Work) -> (r: Step)
    ensures
        r@ == quietly(work@),
{
    let r = Step { events: Vec::new(), work };
    assert(r@.events =~= Seq::empty());
    r
}

/// A step that announces one event.
fn telling(event: AgentEvent, work: Work) -> (r: Step)
    ensures
        r@ == (StepView { events: seq![event@], work: work@ }),
{
    let mut events: Vec<AgentEvent> = Vec::new();
    events.push(event);
    let r = Step { events, work };
    assert(r@.events =~= seq![event@]);
    r
}

/// Appends a message to a conversation.
fn push_message(messages: &mut Vec<Message>, m: Message)
    ensures
        types::messages_view(final(messages)@) == types::messages_view(old(messages)@).push(m@),
{
    messages.push(m);
    assert(types::messages_view(messages@) =~= types::messages_view(old(messages)@).push(m@));
}

/// Appends an event to a list.
fn push_announced(events: &mut Vec<AgentEvent>, e: AgentEvent)
    ensures
        announced(final(events)@) == announced(old(events)@).push(e@),
{
    events.push(e);
    assert(announced(events@) =~= announced(old(events)@).push(e@));
}

fn todo_reminder(incomplete: usize) -> (r: String)
    ensures
        r@ == todo_nudge(incomplete as nat),
{
    let mut s = "\n\n[system reminder: You have ".to_string();
    text::push_decimal(&mut s, incomplete as u64);
    s.append(" incomplete task");
    if incomplete == 1 {
        s.append("");
    } else {
        s.append("s");
    }
    s.append(
        " in your TodoWrite list. Make sure to complete all tasks before ending your response. Use tools to make progress on each task.]",
    );
    s
}

fn run_options(settings: &RunSettings) -> (r: ProviderOptions)
    ensures
        r@ == options_of(*settings),
{
    let mut options = ProviderOptions::new();
    match settings.thinking_budget {
        Some(b) => {
            options.set("thinking_budget", Json::UInt(b as u64));
        },
        None => if settings.thinking_disabled {
            options.set("thinking_disabled", Json::Bool(true));
        },
    }
    options
}

fn system_prompt_for(settings: &RunSettings, turn: u32, incomplete: usize) -> (r: Option<String>)
    ensures
        types::opt_view(r) == system_of(*settings, turn, incomplete as nat),
{
    match &settings.system_prompt {
        Some(s) => if turn > 2 && incomplete > 0 {
            let nudge = todo_reminder(incomplete);
            Some(text::cat(s.as_str(), nudge.as_str()))
        } else {
            Some(s.clone())
        },
        None => None,
    }
}

fn model_text(settings: &RunSettings) -> (r: String)
    ensures
        r@ == model_of(*settings),
{
    match &settings.model {
        Some(m) => m.clone(),
        None => settings.default_model.clone(),
    }
}

impl AgentRun {
    /// Begins a run: the history of the session is loaded first where the
    /// conversation is empty and there is one to load.
    pub fn start(settings: RunSettings, prompt: &str, messages: Vec<Message>, usage: Usage) -> (r: (
        AgentRun,
        Step,
    ))
        ensures
            ({
                let first = RunView::initial(
                    settings,
                    prompt@,
                    types::messages_view(messages@),
                    usage,
                );
                if first.loads_history() {
                    &&& r.0@ == first
                    &&& r.1@ == quietly(
                        WorkView::LoadHistory { session_id: settings.session_id->0@ },
                    )
                } else {
                    &&& r.0@ == first.told(expanded(prompt@))
                    &&& r.1@ == quietly(WorkView::BeginTurn)
                }
            }),
    {
        let ghost first = RunView::initial(
            settings,
            prompt@,
            types::messages_view(messages@),
            usage,
        );
        let mut run = AgentRun {
            settings,
            prompt: prompt.to_string(),
            messages,
            usage,
            turn_usage: Usage::default(),
            tool_calls: Vec::new(),
            turn: 0,
            last_stop_reason: StopReason::EndTurn,
            max_tokens_retries: 0,
            had_tool_use: false,
            depth_nudge_sent: false,
            benchmark_retries: 0,
            doom_loop_warned: false,
            completion_verified: false,
            files_read: TextSet::new(),
            tool_errors: Counts::new(),
            retry_count: 0,
            accumulator: StreamAccumulator::new(),
            results: Vec::new(),
        };
        assert(run@ =~= first);
        if run.messages.len() == 0 && run.settings.has_memory {
            if let Some(id) = &run.settings.session_id {
                let step = quiet(Work::LoadHistory { session_id: id.clone() });
                return (run, step);
            }
        }
        let text = expand_prompt(prompt);
        push_message(&mut run.messages, Message::user(text.as_str()));
        assert(run@ =~= first.told(expanded(prompt@)));
        (run, quiet(Work::BeginTurn))
    }

    /// The history of the session is there, or could not be loaded.
    pub fn on_history(&mut self, history: Result<Vec<Message>, CerseiError>) -> (r: Step)
        ensures
            match history {
                Ok(h) => {
                    &&& final(self)@ == old(self)@.with_history(types::messages_view(h@))
                    &&& r@ == old(self)@.history_step(types::messages_view(h@))
                },
                Err(e) => {
                    &&& final(self)@ == old(self)@
                    &&& r@ == quietly(WorkView::Fail(fail_view(e)))
                },
            },
    {
        match history {
            Ok(h) => {
                let count = h.len();
                let ghost loaded = types::messages_view(h@);
                let ghost before = self.messages@;
                let mut more = h;
                self.messages.append(&mut more);
                assert(types::messages_view(self.messages@) =~= types::messages_view(before)
                    + loaded);
                let text = expand_prompt(self.prompt.as_str());
                push_message(&mut self.messages, Message::user(text.as_str()));
                assert(self@ =~= old(self)@.with_history(loaded));
                if count > 0 {
                    let session_id = match &self.settings.session_id {
                        Some(s) => s.clone(),
                        None => String::new(),
                    };
                    telling(
                        AgentEvent::SessionLoaded { session_id, message_count: count },
                        Work::BeginTurn,
                    )
                } else {
                    quiet(Work::BeginTurn)
                }
            },
            Err(e) => quiet(Work::Fail(e)),
        }
    }

    /// The work at the end of the run.
    fn closing(&self) -> (r: Work)
        ensures
            r@ == closing_work(self.settings),
    {
        if self.settings.has_memory {
            if let Some(id) = &self.settings.session_id {
                return Work::SaveSession { session_id: id.clone() };
            }
        }
        Work::Finish
    }

    /// Begins the next turn, with the tools on offer and the number of open tasks.
    pub fn on_turn(
        &mut self,
        cancelled: bool,
        incomplete_todos: usize,
        tools: Vec<ToolDefinition>,
    ) -> (r: Step)
        requires
            old(self).turn < u32::MAX,
        ensures
            final(self)@ == old(self)@.turned(cancelled),
            r@ == old(self)@.turn_step(
                cancelled,
                incomplete_todos as nat,
                types::tools_view(tools@),
            ),
    {
        self.turn = self.turn + 1;
        if self.turn > self.settings.max_turns {
            return quiet(self.closing());
        }
        if cancelled {
            return quiet(Work::Fail(CerseiError::Cancelled));
        }
        self.retry_count = 0;
        tool_results::apply_tool_result_budget(
            &mut self.messages,
            self.settings.tool_result_budget,
        );
        assert(self@ =~= old(self)@.turned(cancelled));
        let request = CompletionRequest {
            model: model_text(&self.settings),
            messages: types::copy_messages(&self.messages),
            system: system_prompt_for(&self.settings, self.turn, incomplete_todos),
            tools,
            max_tokens: self.settings.max_tokens,
            temperature: match &self.settings.temperature {
                Some(t) => Some(t.copy()),
                None => None,
            },
            stop_sequences: Vec::new(),
            options: run_options(&self.settings),
        };
        assert(request@ =~= request_of(
            self.settings,
            self@.messages,
            types::tools_view(tools@),
            self.turn,
            incomplete_todos as nat,
        ));
        let mut events: Vec<AgentEvent> = Vec::new();
        push_announced(&mut events, AgentEvent::TurnStart { turn: self.turn });
        push_announced(
            &mut events,
            AgentEvent::ModelRequestStart { turn: self.turn, message_count: self.messages.len() },
        );
        let r = Step { events, work: Work::Complete(request) };
        assert(r@ =~= old(self)@.turn_step(
            cancelled,
            incomplete_todos as nat,
            types::tools_view(tools@),
        ));
        r
    }

    /// Takes note of a failed request and says what to do about it.
    fn failed(&mut self, error: CerseiError, again: bool) -> (r: Step)
        requires
            again ==> old(self).retry_count < MAX_RETRIES,
        ensures
            final(self)@ == old(self)@.after_failure(again),
            r@ == old(self)@.failure_step(fail_view(error), again),
    {
        if again {
            self.retry_count = self.retry_count + 1;
            quiet(Work::Backoff { retry: self.retry_count })
        } else {
            quiet(Work::Fail(error))
        }
    }

    /// The provider has taken the request, or refused it.
    pub fn on_completion(&mut self, outcome: Result<(), CerseiError>) -> (r: Step)
        ensures
            match outcome {
                Ok(_) => {
                    &&& final(self)@ == old(self)@.answered()
                    &&& r@ == old(self)@.answered_step()
                },
                Err(e) => {
                    let again = old(self)@.retries(fail_view(e));
                    &&& final(self)@ == old(self)@.after_failure(again)
                    &&& r@ == old(self)@.failure_step(fail_view(e), again)
                },
            },
    {
        match outcome {
            Ok(_) => {
                self.accumulator = StreamAccumulator::new();
                telling(
                    AgentEvent::ModelResponseStart {
                        turn: self.turn,
                        model: model_text(&self.settings),
                    },
                    Work::ReadStream,
                )
            },
            Err(e) => {
                let again = e.is_retryable() && self.retry_count < MAX_RETRIES;
                assert(again == self@.retries(fail_view(e)));
                self.failed(e, again)
            },
        }
    }

    /// An event of the response.
    pub fn on_stream(&mut self, event: StreamEvent) -> (r: Step)
        ensures
            final(self)@ == old(self)@.streamed(event@),
            r@ == old(self)@.stream_step(event@),
    {
        match event {
            StreamEvent::Error { message, kind } => {
                let error = kind.into_error(message);
                assert(fail_view(error) == kind_error(kind, message@));
                let again = !self.accumulator.has_started() && error.is_retryable()
                    && self.retry_count < MAX_RETRIES;
                assert(again == self@.retries_stream(fail_view(error)));
                self.failed(error, again)
            },
            StreamEvent::TextDelta { index, text } => {
                let shown = text.clone();
                self.accumulator.process_event(StreamEvent::TextDelta { index, text });
                telling(AgentEvent::TextDelta(shown), Work::ReadStream)
            },
            StreamEvent::ThinkingDelta { index, thinking } => {
                let shown = thinking.clone();
                self.accumulator.process_event(StreamEvent::ThinkingDelta { index, thinking });
                telling(AgentEvent::ThinkingDelta(shown), Work::ReadStream)
            },
            other => {
                self.accumulator.process_event(other);
                quiet(Work::ReadStream)
            },
        }
    }

    /// The response is complete.
    pub fn on_stream_end(&mut self) -> (r: Step)
        ensures
            final(self)@ == old(self)@.responded(),
            r@ == old(self)@.response_step(),
    {
        let mut accumulator = StreamAccumulator::new();
        std::mem::swap(&mut accumulator, &mut self.accumulator);
        let response = accumulator.into_response();
        match response {
            Ok(response) => {
                self.last_stop_reason = response.stop_reason;
                self.turn_usage = response.usage;
                self.usage.merge(&response.usage);
                push_message(&mut self.messages, response.message);
                assert(self@ =~= old(self)@.responded());
                assert(self@.messages.len() == old(self)@.messages.len() + 1);
                assert(self@.messages.len() == self.messages@.len());
                telling(
                    AgentEvent::CostUpdate {
                        turn_usage: self.turn_usage,
                        cumulative: self.usage,
                    },
                    Work::RunHooks { message_count: self.messages.len() },
                )
            },
            Err(e) => quiet(Work::Fail(e)),
        }
    }
}

// ─── The end of a turn ───────────────────────────────────────────────────────

/// A command that looks at the work that was done.
pub open spec fn checks_work(command: Seq<char>) -> bool {
    ||| text::occurs("cat "@, command)
    ||| text::occurs("python "@, command)
    ||| text::occurs("test"@, command)
    ||| text::occurs("verify"@, command)
    ||| text::occurs("node "@, command)
    ||| text::occurs("./"@, command)
    ||| text::occurs("check"@, command)
}

/// Whether one of the last `n` calls looked at the work that was done.
pub open spec fn recently_checked(calls: Seq<agent::RecordView>, n: int) -> bool
    decreases calls.len(),
{
    if calls.len() == 0 || n <= 0 {
        false
    } else {
        checks_work(benchmark::command_of(calls.last().input)) || recently_checked(
            calls.drop_last(),
            n - 1,
        )
    }
}

/// A prompt that names a command for verification.
pub open spec fn names_tests(prompt: Seq<char>) -> bool {
    ||| text::occurs("test_outputs.py"@, prompt)
    ||| text::occurs("run_tests"@, prompt)
    ||| text::occurs("run-tests"@, prompt)
    ||| text::occurs("pytest"@, prompt)
    ||| text::occurs("verify.py"@, prompt)
    ||| text::occurs("check.py"@, prompt)
    ||| text::occurs("npm test"@, prompt)
    ||| text::occurs("cargo test"@, prompt)
    ||| text::occurs("make test"@, prompt)
}

/// The first `n` characters of a text, or all of them.
pub open spec fn at_most(s: Seq<char>, n: int) -> Seq<char> {
    if s.len() <= n {
        s
    } else {
        s.take(n)
    }
}

/// What the model is told when its tests failed.
pub open spec fn failed_tests_nudge(attempt: nat, output: Seq<char>) -> Seq<char> {
    "[system] Verification FAILED (attempt "@ + text::decimal(attempt) + "/"@ + text::decimal(
        BENCHMARK_MAX_RETRIES as nat,
    ) + ").\n\nOutput:\n```\n"@ + at_most(output, 3000)
        + "\n```\n\nTry a COMPLETELY DIFFERENT approach. Do NOT patch — rewrite."@
}

/// The status that is announced when tests are tried again.
pub open spec fn retry_status(attempt: nat) -> Seq<char> {
    "Benchmark: retry "@ + text::decimal(attempt) + "/"@ + text::decimal(
        BENCHMARK_MAX_RETRIES as nat,
    )
}

/// The calls of tools among the blocks.
pub open spec fn uses_in(blocks: Seq<types::BlockView>) -> Seq<UseView>
    decreases blocks.len(),
{
    if blocks.len() == 0 {
        Seq::empty()
    } else {
        match blocks.last() {
            types::BlockView::ToolUse { id, name, input } => uses_in(blocks.drop_last()).push(
                UseView { id, name, input },
            ),
            _ => uses_in(blocks.drop_last()),
        }
    }
}

/// The announcements that calls of tools start.
pub open spec fn starts(uses: Seq<UseView>) -> Seq<Announced> {
    Seq::new(
        uses.len(),
        |i: int|
            Announced::ToolStart { name: uses[i].name, id: uses[i].id, input: uses[i].input },
    )
}

impl RunView {
    /// The calls of tools in the last message.
    pub open spec fn requested(self) -> Seq<UseView> {
        if self.messages.len() == 0 {
            Seq::empty()
        } else {
            match self.messages.last().content {
                types::ContentView::Blocks(b) => uses_in(b),
                types::ContentView::Text(_) => Seq::empty(),
            }
        }
    }

    /// The model has finished, but must look at its work first.
    pub open spec fn needs_check(self) -> bool {
        self.settings.benchmark_mode && !self.completion_verified && self.turn >= 3
            && !recently_checked(self.calls, 5)
    }

    /// The model has finished, and its tests decide.
    pub open spec fn tests_decide(self) -> bool {
        self.settings.benchmark_mode && self.benchmark_retries < BENCHMARK_MAX_RETRIES
            && names_tests(self.prompt)
    }

    /// The model has finished too early.
    pub open spec fn too_shallow(self) -> bool {
        self.had_tool_use && self.turn <= 4 && !self.depth_nudge_sent
    }

    /// What comes of a turn in which the model has finished: the run, what is
    /// announced, and the work.
    pub open spec fn finished_turn(self) -> (RunView, StepView) {
        if self.needs_check() {
            (
                RunView { completion_verified: true, ..self }.told(VERIFY_NUDGE@),
                StepView {
                    events: seq![
                        Announced::Status("Nudging agent to verify before completion"@),
                    ],
                    work: WorkView::BeginTurn,
                },
            )
        } else if self.tests_decide() {
            match benchmark::verdict(self.calls) {
                benchmark::Verdict::TestsNotRun => if self.benchmark_retries == 0 {
                    (
                        RunView { benchmark_retries: 1, ..self }.told(RUN_TESTS_NUDGE@),
                        StepView {
                            events: seq![
                                Announced::Status(
                                    "Benchmark: nudge to run instruction's test command"@,
                                ),
                            ],
                            work: WorkView::BeginTurn,
                        },
                    )
                } else {
                    (self, quietly(closing_work(self.settings)))
                },
                benchmark::Verdict::TestsFailed(output) => {
                    let attempt = (self.benchmark_retries + 1) as u32;
                    (
                        RunView { benchmark_retries: attempt, ..self }.told(
                            failed_tests_nudge(attempt as nat, output),
                        ),
                        StepView {
                            events: seq![Announced::Status(retry_status(attempt as nat))],
                            work: WorkView::BeginTurn,
                        },
                    )
                },
                benchmark::Verdict::TestsPassed => (self, quietly(closing_work(self.settings))),
            }
        } else if self.too_shallow() {
            (
                RunView { depth_nudge_sent: true, ..self }.told(DEPTH_NUDGE@),
                quietly(WorkView::BeginTurn),
            )
        } else {
            (self, quietly(closing_work(self.settings)))
        }
    }

    /// What comes of a turn, by its stop reason.
    pub open spec fn stopped(self) -> (RunView, StepView) {
        match self.last_stop_reason {
            StopReason::EndTurn => self.finished_turn(),
            StopReason::ToolUse => (
                RunView {
                    max_tokens_retries: 0,
                    had_tool_use: true,
                    results: Seq::empty(),
                    ..self
                },
                StepView {
                    events: starts(self.requested()),
                    work: WorkView::RunTools(self.requested()),
                },
            ),
            StopReason::MaxTokens => {
                let n = (self.max_tokens_retries + 1) as u32;
                let next = RunView { max_tokens_retries: n, ..self };
                if n > MAX_TOKENS_RETRY_LIMIT {
                    (next, quietly(closing_work(self.settings)))
                } else {
                    (next.told(CONTINUE_NUDGE@), quietly(compaction_work(self.settings)))
                }
            },
            StopReason::StopSequence => (self, quietly(closing_work(self.settings))),
        }
    }

    /// The announcement that a turn is complete.
    pub open spec fn turn_complete(self) -> Announced {
        Announced::TurnComplete {
            turn: self.turn,
            stop_reason: self.last_stop_reason,
            usage: self.turn_usage,
        }
    }

    /// The step at the end of a turn.
    pub open spec fn end_step(self) -> StepView {
        let (_, step) = self.stopped();
        StepView { events: seq![self.turn_complete()] + step.events, work: step.work }
    }
}

fn looks_at_work(command: &str) -> (r: bool)
    ensures
        r == checks_work(command@),
{
    text::contains(command, "cat ") || text::contains(command, "python ") || text::contains(
        command,
        "test",
    ) || text::contains(command, "verify") || text::contains(command, "node ") || text::contains(
        command,
        "./",
    ) || text::contains(command, "check")
}

fn was_recently_checked(calls: &Vec<ToolCallRecord>) -> (r: bool)
    ensures
        r == recently_checked(agent::records_view(calls@), 5),
{
    let ghost all = agent::records_view(calls@);
    let mut i: usize = calls.len();
    let mut left: usize = 5;
    assert(all.take(i as int) =~= all);
    while i > 0 && left > 0
        invariant
            i <= calls@.len(),
            left <= 5,
            all == agent::records_view(calls@),
            recently_checked(all, 5) == recently_checked(all.take(i as int), left as int),
        decreases i,
    {
        assert(all.take(i as int).drop_last() =~= all.take(i - 1));
        assert(all.take(i as int).last() == calls@[i - 1]@);
        let command = benchmark::command_text(&calls[i - 1].input);
        if looks_at_work(command.as_str()) {
            return true;
        }
        i = i - 1;
        left = left - 1;
    }
    false
}

fn prompt_names_tests(prompt: &str) -> (r: bool)
    ensures
        r == names_tests(prompt@),
{
    text::contains(prompt, "test_outputs.py") || text::contains(prompt, "run_tests")
        || text::contains(prompt, "run-tests") || text::contains(prompt, "pytest")
        || text::contains(prompt, "verify.py") || text::contains(prompt, "check.py")
        || text::contains(prompt, "npm test") || text::contains(prompt, "cargo test")
        || text::contains(prompt, "make test")
}

fn failed_tests_message(attempt: u32, output: &str) -> (r: String)
    ensures
        r@ == failed_tests_nudge(attempt as nat, output@),
{
    let v = text::chars_of(output);
    let n: usize = if v.len() > 3000 {
        3000
    } else {
        v.len()
    };
    let shown = text::string_of(&v, 0, n);
    assert(shown@ =~= at_most(output@, 3000));
    let mut s = "[system] Verification FAILED (attempt ".to_string();
    text::push_decimal(&mut s, attempt as u64);
    s.append("/");
    text::push_decimal(&mut s, BENCHMARK_MAX_RETRIES as u64);
    s.append(").\n\nOutput:\n```\n");
    s.append(shown.as_str());
    s.append("\n```\n\nTry a COMPLETELY DIFFERENT approach. Do NOT patch — rewrite.");
    s
}

fn retry_message(attempt: u32) -> (r: String)
    ensures
        r@ == retry_status(attempt as nat),
{
    let mut s = "Benchmark: retry ".to_string();
    text::push_decimal(&mut s, attempt as u64);
    s.append("/");
    text::push_decimal(&mut s, BENCHMARK_MAX_RETRIES as u64);
    s
}

fn collect_uses(blocks: &Vec<ContentBlock>) -> (r: Vec<ToolUse>)
    ensures
        uses_view(r@) == uses_in(types::blocks_view(blocks@)),
{
    let ghost all = types::blocks_view(blocks@);
    proof {
        types::lemma_blocks_view(blocks@);
    }
    let mut out: Vec<ToolUse> = Vec::new();
    let mut i: usize = 0;
    assert(all.take(0) =~= Seq::empty());
    assert(uses_view(out@) =~= Seq::empty());
    while i < blocks.len()
        invariant
            i <= blocks@.len(),
            all.len() == blocks@.len(),
            forall|j: int| 0 <= j < blocks@.len() ==> #[trigger] all[j] == blocks@[j]@,
            uses_view(out@) == uses_in(all.take(i as int)),
        decreases blocks@.len() - i,
    {
        assert(all.take(i + 1).drop_last() =~= all.take(i as int));
        assert(all.take(i + 1).last() == blocks@[i as int]@);
        if let ContentBlock::ToolUse { id, name, input } = &blocks[i] {
            let ghost before = out@;
            let u = ToolUse { id: id.clone(), name: name.clone(), input: input.copy() };
            out.push(u);
            assert(uses_view(out@) =~= uses_view(before).push(u@));
        }
        i = i + 1;
    }
    assert(all.take(i as int) =~= all);
    out
}

fn start_events(uses: &Vec<ToolUse>) -> (r: Vec<AgentEvent>)
    ensures
        announced(r@) == starts(uses_view(uses@)),
{
    let mut out: Vec<AgentEvent> = Vec::new();
    let mut i: usize = 0;
    while i < uses.len()
        invariant
            i <= uses@.len(),
            out@.len() == i,
            forall|j: int|
                0 <= j < i ==> #[trigger] out@[j]@ == starts(uses_view(uses@))[j],
        decreases uses@.len() - i,
    {
        let u = &uses[i];
        out.push(
            AgentEvent::ToolStart { name: u.name.clone(), id: u.id.clone(), input: u.input.copy() },
        );
        i = i + 1;
    }
    assert(announced(out@) =~= starts(uses_view(uses@)));
    out
}

impl AgentRun {
    /// The calls of tools in the last message.
    fn requested_uses(&self) -> (r: Vec<ToolUse>)
        ensures
            uses_view(r@) == self@.requested(),
    {
        if self.messages.len() > 0 {
            let last = &self.messages[self.messages.len() - 1];
            assert(self@.messages.last() == last@);
            if let MessageContent::Blocks(b) = &last.content {
                return collect_uses(b);
            }
        }
        let none: Vec<ToolUse> = Vec::new();
        assert(uses_view(none@) =~= Seq::empty());
        none
    }

    /// Says something to the model.
    fn tell(&mut self, text: &str)
        ensures
            final(self)@ == old(self)@.told(text@),
            final(self).max_tokens_retries == old(self).max_tokens_retries,
    {
        push_message(&mut self.messages, Message::user(text));
        assert(self@ =~= old(self)@.told(text@));
    }

    /// The model has finished.
    fn finish_turn(&mut self) -> (r: Step)
        ensures
            (final(self)@, r@) == old(self)@.finished_turn(),
    {
        if self.settings.benchmark_mode && !self.completion_verified && self.turn >= 3
            && !was_recently_checked(&self.tool_calls) {
            self.completion_verified = true;
            self.tell(VERIFY_NUDGE);
            return telling(
                AgentEvent::Status("Nudging agent to verify before completion".to_string()),
                Work::BeginTurn,
            );
        }
        if self.settings.benchmark_mode && self.benchmark_retries < BENCHMARK_MAX_RETRIES
            && prompt_names_tests(self.prompt.as_str()) {
            match benchmark::benchmark_check_tests(&self.tool_calls) {
                BenchmarkVerification::TestsNotRun => {
                    if self.benchmark_retries == 0 {
                        self.benchmark_retries = 1;
                        self.tell(RUN_TESTS_NUDGE);
                        return telling(
                            AgentEvent::Status(
                                "Benchmark: nudge to run instruction's test command".to_string(),
                            ),
                            Work::BeginTurn,
                        );
                    }
                    return quiet(self.closing());
                },
                BenchmarkVerification::TestsFailed(output) => {
                    self.benchmark_retries = self.benchmark_retries + 1;
                    let message = failed_tests_message(self.benchmark_retries, output.as_str());
                    self.tell(message.as_str());
                    return telling(
                        AgentEvent::Status(retry_message(self.benchmark_retries)),
                        Work::BeginTurn,
                    );
                },
                BenchmarkVerification::TestsPassed => {
                    return quiet(self.closing());
                },
            }
        }
        if self.had_tool_use && self.turn <= 4 && !self.depth_nudge_sent {
            self.depth_nudge_sent = true;
            self.tell(DEPTH_NUDGE);
            return quiet(Work::BeginTurn);
        }
        quiet(self.closing())
    }

    /// The work after a turn that goes on.
    fn compaction(&self) -> (r: Work)
        ensures
            r@ == compaction_work(self.settings),
    {
        if self.settings.auto_compact {
            Work::Compact
        } else {
            Work::BeginTurn
        }
    }

    /// Decides by the stop reason of the response.
    fn stop(&mut self) -> (r: Step)
        requires
            old(self).max_tokens_retries < u32::MAX,
        ensures
            (final(self)@, r@) == old(self)@.stopped(),
    {
        match self.last_stop_reason {
            StopReason::EndTurn => self.finish_turn(),
            StopReason::ToolUse => {
                let uses = self.requested_uses();
                self.max_tokens_retries = 0;
                self.had_tool_use = true;
                self.results = Vec::new();
                let events = start_events(&uses);
                let r = Step { events, work: Work::RunTools(uses) };
                assert(self@ =~= old(self)@.stopped().0);
                r
            },
            StopReason::MaxTokens => {
                self.max_tokens_retries = self.max_tokens_retries + 1;
                if self.max_tokens_retries > MAX_TOKENS_RETRY_LIMIT {
                    return quiet(self.closing());
                }
                self.tell(CONTINUE_NUDGE);
                quiet(self.compaction())
            },
            StopReason::StopSequence => quiet(self.closing()),
        }
    }

    /// The hooks for elapsed turns have run, or were not due: the turn ends.
    pub fn on_elapsed(&mut self) -> (r: Step)
        requires
            old(self).max_tokens_retries < u32::MAX,
        ensures
            final(self)@ == old(self)@.stopped().0,
            r@ == old(self)@.end_step(),
    {
        let mut events: Vec<AgentEvent> = Vec::new();
        push_announced(
            &mut events,
            AgentEvent::TurnComplete {
                turn: self.turn,
                stop_reason: self.last_stop_reason,
                usage: self.turn_usage,
            },
        );
        let mut step = self.stop();
        let ghost rest = step.events@;
        let ghost first = events@;
        events.append(&mut step.events);
        proof {
            assert(events@ =~= first + rest);
            assert(announced(events@) =~= announced(first) + announced(rest));
            assert(announced(first) =~= seq![old(self)@.turn_complete()]);
        }
        Step { events, work: step.work }
    }

    /// The hooks that follow a response have run: one may have blocked the run.
    pub fn on_hooks(&mut self, blocked: Option<String>) -> (r: Step)
        requires
            old(self).max_tokens_retries < u32::MAX,
        ensures
            match blocked {
                Some(reason) => {
                    &&& final(self)@ == old(self)@
                    &&& r@ == quietly(
                        WorkView::Fail(FailView::Provider("Blocked by hook: "@ + reason@)),
                    )
                },
                None => if agent::fires_at(
                    old(self).turn,
                    old(self).settings.turns_elapsed_cadence,
                ) {
                    &&& final(self)@ == old(self)@
                    &&& r@ == quietly(WorkView::TurnsElapsed)
                } else {
                    &&& final(self)@ == old(self)@.stopped().0
                    &&& r@ == old(self)@.end_step()
                },
            },
    {
        match blocked {
            Some(reason) => quiet(
                Work::Fail(CerseiError::Provider(text::cat("Blocked by hook: ", reason.as_str()))),
            ),
            None => if agent::cadence_due(self.turn, self.settings.turns_elapsed_cadence) {
                quiet(Work::TurnsElapsed)
            } else {
                self.on_elapsed()
            },
        }
    }
}

// ─── Tools ───────────────────────────────────────────────────────────────────

/// What a tool gave back.
#[derive(Clone, Debug, PartialEq, Eq)]
pub struct ToolResult {
    pub content: String,
    pub is_error: bool,
}

#[verifier::ext_equal]
pub ghost struct Outcome {
    pub content: Seq<char>,
    pub is_error: bool,
}

impl View for ToolResult {
    type V = Outcome;

    open spec fn view(&self) -> Outcome {
        Outcome { content: self.content@, is_error: self.is_error }
    }
}

impl ToolResult {
    /// A failure.
    pub fn error(content: String) -> (r: ToolResult)
        ensures
            r@ == (Outcome { content: content@, is_error: true }),
    {
        ToolResult { content, is_error: true }
    }
}

/// What the permission policy says of a call.
#[derive(Clone, Debug, PartialEq, Eq)]
pub enum PermissionDecision {
    Allow,
    AllowOnce,
    AllowForSession,
    Deny(String),
}

/// What the hooks say of a call.
#[derive(Clone, Debug, PartialEq)]
pub enum HookAction {
    Continue,
    Block(String),
    ModifyInput(Json),
}

/// What becomes of a call: a result at once, or the tool runs with an input.
#[derive(Clone, Debug, PartialEq)]
pub enum ToolPlan {
    Answer(ToolResult),
    Execute(Json),
}

/// The position of the first tool with a name.
pub fn find_tool(names: &Vec<String>, name: &str) -> (r: Option<usize>)
    ensures
        match r {
            Some(i) => i < names@.len() && names@[i as int]@ == name@ && forall|j: int|
                0 <= j < i ==> (#[trigger] names@[j])@ != name@,
            None => forall|j: int| 0 <= j < names@.len() ==> (#[trigger] names@[j])@ != name@,
        },
{
    let mut i: usize = 0;
    while i < names.len()
        invariant
            i <= names@.len(),
            forall|j: int| 0 <= j < i ==> (#[trigger] names@[j])@ != name@,
        decreases names@.len() - i,
    {
        if text::same(names[i].as_str(), name) {
            return Some(i);
        }
        i = i + 1;
    }
    None
}

/// The answer to a call of a tool that does not exist.
pub fn unknown_tool(name: &str) -> (r: ToolResult)
    ensures
        r@ == (Outcome { content: "Unknown tool: "@ + name@, is_error: true }),
{
    ToolResult::error(text::cat("Unknown tool: ", name))
}

/// What the user is asked when permission for a call is sought.
pub fn permission_text(name: &str) -> (r: String)
    ensures
        r@ == "Execute tool '"@ + name@ + "'"@,
{
    text::cat3("Execute tool '", name, "'")
}

/// The answer to a call that is not permitted; none where it is.
pub fn refused(decision: PermissionDecision) -> (r: Option<ToolResult>)
    ensures
        match decision {
            PermissionDecision::Deny(reason) => r matches Some(t) && t@ == (Outcome {
                content: "Permission denied: "@ + reason@,
                is_error: true,
            }),
            _ => r is None,
        },
{
    match decision {
        PermissionDecision::Deny(reason) => Some(
            ToolResult::error(text::cat("Permission denied: ", reason.as_str())),
        ),
        _ => None,
    }
}

/// What becomes of a permitted call when the hooks have seen it.
pub fn plan_call(action: HookAction, input: Json) -> (r: ToolPlan)
    ensures
        match action {
            HookAction::Block(reason) => r matches ToolPlan::Answer(t) && t@ == (Outcome {
                content: "Blocked by hook: "@ + reason@,
                is_error: true,
            }),
            HookAction::ModifyInput(other) => r == ToolPlan::Execute(other),
            HookAction::Continue => r == ToolPlan::Execute(input),
        },
{
    match action {
        HookAction::Block(reason) => ToolPlan::Answer(
            ToolResult::error(text::cat("Blocked by hook: ", reason.as_str())),
        ),
        HookAction::ModifyInput(other) => ToolPlan::Execute(other),
        HookAction::Continue => ToolPlan::Execute(input),
    }
}

/// The file that a call names.
pub open spec fn file_of(input: json::JsonView) -> Option<Seq<char>> {
    input.at("file_path"@).as_str()
}

/// The name of the tool that reads files.
pub open spec fn reads(name: Seq<char>) -> bool {
    name == "Read"@ || name == "read"@
}

/// The name of the tool that edits files.
pub open spec fn edits(name: Seq<char>) -> bool {
    name == "Edit"@ || name == "edit"@
}

/// What the model is told that edits a file it has not read.
pub open spec fn unread_error(path: Seq<char>) -> Seq<char> {
    "You must Read '"@ + path
        + "' before editing it. Read the file first to understand its current contents."@
}

/// The attempts that remain after `count` failures.
pub open spec fn attempts_left(count: u32) -> u32 {
    if count >= MAX_TOOL_ERRORS_PER_TOOL {
        0
    } else {
        (MAX_TOOL_ERRORS_PER_TOOL - count) as u32
    }
}

/// The result of a failure, with a note of how often the tool has failed.
pub open spec fn failure_note(content: Seq<char>, name: Seq<char>, count: u32) -> Seq<char> {
    content + "\n\n[Tool '"@ + name + "' failed "@ + text::decimal(count as nat) + " time(s). "@
        + text::decimal(attempts_left(count) as nat)
        + " attempts remaining. Analyze the error and try a different approach.]"@
}

impl RunView {
    /// The files that were read once a call has come back.
    pub open spec fn read_after(self, u: UseView, is_error: bool) -> Set<Seq<char>> {
        if reads(u.name) && !is_error && file_of(u.input) is Some {
            self.files_read.insert(file_of(u.input)->0)
        } else {
            self.files_read
        }
    }

    /// The file that must not exist for an edit to stand: one that was not read.
    pub open spec fn unread_target(self, u: UseView, is_error: bool) -> Option<Seq<char>> {
        if edits(u.name) && !is_error {
            match file_of(u.input) {
                Some(path) => if self.read_after(u, is_error).contains(path) {
                    None
                } else {
                    Some(path)
                },
                None => None,
            }
        } else {
            None
        }
    }

    /// The result once the guard on edits has seen it.
    pub open spec fn guarded(self, u: UseView, outcome: Outcome, target_exists: bool) -> Outcome {
        match self.unread_target(u, outcome.is_error) {
            Some(path) if target_exists => Outcome { content: unread_error(path), is_error: true },
            _ => outcome,
        }
    }

    /// How often a tool has failed, this time included.
    pub open spec fn failures(self, name: Seq<char>) -> u32 {
        if self.tool_errors.contains_key(name) {
            if self.tool_errors[name] == u32::MAX {
                u32::MAX
            } else {
                (self.tool_errors[name] + 1) as u32
            }
        } else {
            1
        }
    }

    /// The run once the guards have seen a result.
    pub open spec fn settled(self, u: UseView, outcome: Outcome, target_exists: bool) -> RunView {
        let guarded = self.guarded(u, outcome, target_exists);
        RunView {
            files_read: self.read_after(u, outcome.is_error),
            tool_errors: if guarded.is_error {
                self.tool_errors.insert(u.name, self.failures(u.name))
            } else {
                self.tool_errors.remove(u.name)
            },
            ..self
        }
    }

    /// The result that the guards make of a result.
    pub open spec fn settled_outcome(
        self,
        u: UseView,
        outcome: Outcome,
        target_exists: bool,
    ) -> Outcome {
        let guarded = self.guarded(u, outcome, target_exists);
        if guarded.is_error {
            Outcome {
                content: failure_note(guarded.content, u.name, self.failures(u.name)),
                is_error: true,
            }
        } else {
            guarded
        }
    }

    /// The run once a result is recorded. `compressed` is the content of a success
    /// as compression left it; a failure is not compressed.
    pub open spec fn recorded(
        self,
        u: UseView,
        outcome: Outcome,
        compressed: Seq<char>,
        duration_nanos: u128,
    ) -> RunView {
        RunView {
            calls: self.calls.push(
                agent::RecordView {
                    name: u.name,
                    id: u.id,
                    input: u.input,
                    result: outcome.content,
                    is_error: outcome.is_error,
                    duration_nanos,
                },
            ),
            results: self.results.push(
                types::BlockView::ToolResult {
                    tool_use_id: u.id,
                    content: types::ResultView::Text(
                        if outcome.is_error {
                            outcome.content
                        } else {
                            tool_results::capped(compressed)
                        },
                    ),
                    is_error: Some(outcome.is_error),
                },
            ),
            ..self
        }
    }
}

fn file_in(input: &Json) -> (r: Option<String>)
    ensures
        types::opt_view(r) == file_of(input@),
{
    match input.str_at("file_path") {
        Some(p) => Some(p.to_string()),
        None => None,
    }
}

fn is_read(name: &str) -> (r: bool)
    ensures
        r == reads(name@),
{
    text::same(name, "Read") || text::same(name, "read")
}

fn is_edit(name: &str) -> (r: bool)
    ensures
        r == edits(name@),
{
    text::same(name, "Edit") || text::same(name, "edit")
}

/// A read is no edit.
proof fn lemma_reads_are_not_edits(name: Seq<char>)
    ensures
        !(reads(name) && edits(name)),
{
    reveal_strlit("Read");
    reveal_strlit("read");
    reveal_strlit("Edit");
    reveal_strlit("edit");
    assert("Read"@[1] == 'e');
    assert("read"@[1] == 'e');
    assert("Edit"@[1] == 'd');
    assert("edit"@[1] == 'd');
}

impl AgentRun {
    /// The file whose existence decides whether an edit stands; none where the
    /// edit stands anyway.
    pub fn edit_target(&self, u: &ToolUse, is_error: bool) -> (r: Option<String>)
        ensures
            types::opt_view(r) == self@.unread_target(u@, is_error),
    {
        proof {
            lemma_reads_are_not_edits(u@.name);
        }
        if is_edit(u.name.as_str()) && !is_error {
            if let Some(path) = file_in(&u.input) {
                if !self.files_read.contains(path.as_str()) {
                    return Some(path);
                }
            }
        }
        None
    }

    /// Passes a result through the guards: an edit of an existing file that was
    /// not read fails, and failures of a tool are counted. `target_exists` says
    /// whether the file of [`AgentRun::edit_target`] exists.
    pub fn settle(&mut self, u: &ToolUse, result: ToolResult, target_exists: bool) -> (r: ToolResult)
        ensures
            final(self)@ == old(self)@.settled(u@, result@, target_exists),
            r@ == old(self)@.settled_outcome(u@, result@, target_exists),
    {
        proof {
            lemma_reads_are_not_edits(u@.name);
        }
        let target = self.edit_target(u, result.is_error);
        if is_read(u.name.as_str()) && !result.is_error {
            if let Some(path) = file_in(&u.input) {
                self.files_read.insert(path);
            }
        }
        let mut result = result;
        if target_exists {
            if let Some(path) = target {
                result = ToolResult::error(
                    text::cat3(
                        "You must Read '",
                        path.as_str(),
                        "' before editing it. Read the file first to understand its current contents.",
                    ),
                );
            }
        }
        if result.is_error {
            let count: u32 = match self.tool_errors.get(u.name.as_str()) {
                Some(n) => if n == u32::MAX {
                    u32::MAX
                } else {
                    n + 1
                },
                None => 1,
            };
            self.tool_errors.set(u.name.as_str(), count);
            let remaining: u32 = if count >= MAX_TOOL_ERRORS_PER_TOOL {
                0
            } else {
                MAX_TOOL_ERRORS_PER_TOOL - count
            };
            let mut s = result.content;
            s.append("\n\n[Tool '");
            s.append(u.name.as_str());
            s.append("' failed ");
            text::push_decimal(&mut s, count as u64);
            s.append(" time(s). ");
            text::push_decimal(&mut s, remaining as u64);
            s.append(" attempts remaining. Analyze the error and try a different approach.]");
            result = ToolResult { content: s, is_error: true };
        } else {
            self.tool_errors.remove(u.name.as_str());
        }
        result
    }
}

/// The three most recent calls were of one tool, and all of them failed.
pub open spec fn same_failing_call(calls: Seq<agent::RecordView>) -> bool {
    let n = calls.len();
    n >= 3 && calls[n - 1].name == calls[n - 2].name && calls[n - 2].name == calls[n - 3].name
        && calls[n - 1].is_error && calls[n - 2].is_error && calls[n - 3].is_error
}

/// The six most recent calls went back and forth between two tools.
pub open spec fn alternating_calls(calls: Seq<agent::RecordView>) -> bool {
    let n = calls.len();
    n >= 6 && calls[n - 1].name == calls[n - 3].name && calls[n - 3].name == calls[n - 5].name
        && calls[n - 2].name == calls[n - 4].name && calls[n - 4].name == calls[n - 6].name
}

/// The run repeats itself.
pub open spec fn in_doom_loop(calls: Seq<agent::RecordView>) -> bool {
    calls.len() >= 6 && (same_failing_call(calls) || alternating_calls(calls))
}

impl RunView {
    /// The run with the results of the tools in its conversation.
    pub open spec fn with_results(self) -> RunView {
        RunView {
            messages: self.messages.push(
                types::MessageView {
                    role: Role::User,
                    content: types::ContentView::Blocks(self.results),
                    id: None,
                    metadata: None,
                },
            ),
            results: Seq::empty(),
            ..self
        }
    }

    /// Whether the model is warned that it repeats itself. It is warned once.
    pub open spec fn warns(self) -> bool {
        !self.doom_loop_warned && in_doom_loop(self.calls)
    }

    /// The run once all tools have come back.
    pub open spec fn tools_done(self) -> RunView {
        if self.warns() {
            RunView { doom_loop_warned: true, ..self.with_results() }.told(DOOM_LOOP_NUDGE@)
        } else {
            self.with_results()
        }
    }

    /// The step once all tools have come back.
    pub open spec fn tools_step(self) -> StepView {
        StepView {
            events: if self.warns() {
                seq![Announced::Status("Doom loop detected — forcing new approach"@)]
            } else {
                Seq::empty()
            },
            work: compaction_work(self.settings),
        }
    }

    /// The run with a summary in place of all but its last `keep` messages.
    pub open spec fn summarised(self, summary: Seq<char>, keep: int) -> RunView {
        let n = self.messages.len() as int;
        let from = if n > keep {
            n - keep
        } else {
            0
        };
        RunView {
            messages: seq![types::MessageView::plain(Role::User, summary)] + self.messages.skip(
                from,
            ),
            ..self
        }
    }

    /// The last message of the assistant; an empty one where there is none.
    pub open spec fn answer(self) -> types::MessageView {
        last_answer(self.messages)
    }
}

/// The last message of the assistant; an empty one where there is none.
pub open spec fn last_answer(messages: Seq<types::MessageView>) -> types::MessageView
    decreases messages.len(),
{
    if messages.len() == 0 {
        types::MessageView::plain(Role::Assistant, Seq::empty())
    } else if messages.last().role == Role::Assistant {
        messages.last()
    } else {
        last_answer(messages.drop_last())
    }
}

fn repeats_itself(calls: &Vec<ToolCallRecord>) -> (r: bool)
    ensures
        r == in_doom_loop(agent::records_view(calls@)),
{
    let n = calls.len();
    if n < 6 {
        return false;
    }
    let a = &calls[n - 1];
    let b = &calls[n - 2];
    let c = &calls[n - 3];
    let d = &calls[n - 4];
    let e = &calls[n - 5];
    let f = &calls[n - 6];
    let identical = text::same(a.name.as_str(), b.name.as_str()) && text::same(
        b.name.as_str(),
        c.name.as_str(),
    ) && a.is_error && b.is_error && c.is_error;
    let alternating = text::same(a.name.as_str(), c.name.as_str()) && text::same(
        c.name.as_str(),
        e.name.as_str(),
    ) && text::same(b.name.as_str(), d.name.as_str()) && text::same(
        d.name.as_str(),
        f.name.as_str(),
    );
    identical || alternating
}

impl AgentRun {
    /// Records a settled result. `compressed` is the content of a success as
    /// compression left it; for a failure it does not count.
    pub fn record(
        &mut self,
        u: ToolUse,
        result: ToolResult,
        compressed: &str,
        duration_nanos: u128,
    ) -> (r: AgentEvent)
        ensures
            final(self)@ == old(self)@.recorded(u@, result@, compressed@, duration_nanos),
            r@ == (Announced::ToolEnd {
                name: u@.name,
                id: u@.id,
                result: result@.content,
                is_error: result@.is_error,
                duration_nanos,
            }),
    {
        let capped = if result.is_error {
            result.content.clone()
        } else {
            tool_results::cap_tool_result(compressed)
        };
        let event = AgentEvent::ToolEnd {
            name: u.name.clone(),
            id: u.id.clone(),
            result: result.content.clone(),
            is_error: result.is_error,
            duration_nanos,
        };
        let block = ContentBlock::ToolResult {
            tool_use_id: u.id.clone(),
            content: ToolResultContent::Text(capped),
            is_error: Some(result.is_error),
        };
        assert(block@ == types::BlockView::ToolResult {
            tool_use_id: u@.id,
            content: types::ResultView::Text(capped@),
            is_error: Some(result.is_error),
        });
        let ghost blocks = self.results@;
        self.results.push(block);
        assert(self.results@.drop_last() =~= blocks);
        let record = ToolCallRecord {
            name: u.name,
            id: u.id,
            input: u.input,
            result: result.content,
            is_error: result.is_error,
            duration_nanos,
        };
        let ghost calls = self.tool_calls@;
        self.tool_calls.push(record);
        assert(agent::records_view(self.tool_calls@) =~= agent::records_view(calls).push(record@));
        assert(self@ =~= old(self)@.recorded(u@, result@, compressed@, duration_nanos));
        event
    }

    /// All tools have come back.
    pub fn on_tools_done(&mut self) -> (r: Step)
        ensures
            final(self)@ == old(self)@.tools_done(),
            r@ == old(self)@.tools_step(),
    {
        let mut results: Vec<ContentBlock> = Vec::new();
        std::mem::swap(&mut results, &mut self.results);
        push_message(&mut self.messages, Message::user_blocks(results));
        assert(self@ =~= old(self)@.with_results());
        if !self.doom_loop_warned && repeats_itself(&self.tool_calls) {
            self.doom_loop_warned = true;
            self.tell(DOOM_LOOP_NUDGE);
            return telling(
                AgentEvent::Status("Doom loop detected — forcing new approach".to_string()),
                self.compaction(),
            );
        }
        quiet(self.compaction())
    }

    /// The conversation did not need compaction, or a summary of it was sought:
    /// a summary with text in it takes the place of all but the last `keep`
    /// messages; without one the conversation is to be shortened.
    pub fn on_compaction(&mut self, needed: bool, summary: Option<String>, keep: usize) -> (r: Step)
        ensures
            !needed ==> final(self)@ == old(self)@ && r@ == quietly(WorkView::BeginTurn),
            needed ==> match summary {
                Some(s) => if s@.len() > 0 {
                    &&& final(self)@ == old(self)@.summarised(s@, keep as int)
                    &&& r@ == quietly(WorkView::BeginTurn)
                } else {
                    &&& final(self)@ == old(self)@
                    &&& r@ == quietly(WorkView::Snip)
                },
                None => final(self)@ == old(self)@ && r@ == quietly(WorkView::Snip),
            },
    {
        if !needed {
            return quiet(Work::BeginTurn);
        }
        if let Some(s) = summary {
            if text::chars_of(s.as_str()).len() > 0 {
                let ghost before = self.messages@;
                let n = self.messages.len();
                let from: usize = if n > keep {
                    n - keep
                } else {
                    0
                };
                let mut recent = self.messages.split_off(from);
                let mut fresh: Vec<Message> = Vec::new();
                let first = Message::user(s.as_str());
                fresh.push(first);
                fresh.append(&mut recent);
                self.messages = fresh;
                proof {
                    assert(types::messages_view(self.messages@) =~= seq![first@]
                        + types::messages_view(before).skip(from as int));
                    assert(self@ =~= old(self)@.summarised(s@, keep as int));
                }
                return quiet(Work::BeginTurn);
            }
        }
        quiet(Work::Snip)
    }

    /// The conversation was shortened without a summary.
    pub fn on_snipped(&mut self, messages: Vec<Message>) -> (r: Step)
        ensures
            final(self)@ == (RunView {
                messages: types::messages_view(messages@),
                ..old(self)@
            }),
            r@ == quietly(WorkView::BeginTurn),
    {
        self.messages = messages;
        quiet(Work::BeginTurn)
    }

    /// The session was saved, or could not be.
    pub fn on_saved(&mut self, outcome: Result<(), CerseiError>) -> (r: Step)
        ensures
            final(self)@ == old(self)@,
            match outcome {
                Ok(_) => r@ == (StepView {
                    events: seq![
                        Announced::SessionSaved {
                            session_id: anthropic::setting_or(
                                old(self).settings.session_id,
                                Seq::empty(),
                            ),
                        },
                    ],
                    work: WorkView::Finish,
                }),
                Err(e) => r@ == quietly(WorkView::Fail(fail_view(e))),
            },
    {
        match outcome {
            Ok(_) => {
                let session_id = match &self.settings.session_id {
                    Some(s) => s.clone(),
                    None => String::new(),
                };
                telling(AgentEvent::SessionSaved { session_id }, Work::Finish)
            },
            Err(e) => quiet(Work::Fail(e)),
        }
    }

    /// What the run gives back.
    pub fn into_output(self) -> (r: AgentOutput)
        ensures
            r.message@ == self@.answer(),
            r.usage == self.usage,
            r.stop_reason == self.last_stop_reason,
            r.turns == self.turn,
            agent::records_view(r.tool_calls@) == self@.calls,
    {
        let ghost all = self@.messages;
        let mut i: usize = self.messages.len();
        let mut found: Option<usize> = None;
        assert(all.take(i as int) =~= all);
        while i > 0 && found.is_none()
            invariant
                i <= self.messages@.len(),
                all == types::messages_view(self.messages@),
                match found {
                    Some(j) => j < self.messages@.len() && last_answer(all)
                        == self.messages@[j as int]@,
                    None => last_answer(all) == last_answer(all.take(i as int)),
                },
            decreases i,
        {
            assert(all.take(i as int).drop_last() =~= all.take(i - 1));
            assert(all.take(i as int).last() == self.messages@[i - 1]@);
            if self.messages[i - 1].role == Role::Assistant {
                found = Some(i - 1);
            }
            i = i - 1;
        }
        let message = match found {
            Some(j) => self.messages[j].clone(),
            None => {
                assert(""@ =~= Seq::<char>::empty()) by {
                    reveal_strlit("");
                }
                Message::assistant("")
            },
        };
        AgentOutput {
            message,
            usage: self.usage,
            stop_reason: self.last_stop_reason,
            turns: self.turn,
            tool_calls: self.tool_calls,
        }
    }
}

/// What a run of an agent goes by. `default_model` is asked where the agent names no
/// model.
pub fn run_settings<P, T>(a: &Agent<P, T>, has_memory: bool, default_model: &str) -> (r:
    RunSettings)
    ensures
        types::opt_view(r.model) == types::opt_view(a.model),
        r.default_model@ == default_model@,
        r.max_turns == a.max_turns,
        r.max_tokens == a.max_tokens,
        r.temperature is Some <==> a.temperature is Some,
        a.temperature is Some ==> r.temperature->0@ == a.temperature->0@,
        r.thinking_budget == a.thinking_budget,
        r.thinking_disabled == a.thinking_disabled,
        types::opt_view(r.system_prompt) == types::opt_view(a.system_prompt),
        types::opt_view(r.session_id) == types::opt_view(a.session_id),
        r.has_memory == has_memory,
        r.auto_compact == a.auto_compact,
        r.tool_result_budget == a.tool_result_budget,
        r.turns_elapsed_cadence == a.turns_elapsed_cadence,
        r.benchmark_mode == a.benchmark_mode,
{
    RunSettings {
        model: types::copy_opt(&a.model),
        default_model: default_model.to_string(),
        max_turns: a.max_turns,
        max_tokens: a.max_tokens,
        temperature: match &a.temperature {
            Some(t) => Some(t.copy()),
            None => None,
        },
        thinking_budget: a.thinking_budget,
        thinking_disabled: a.thinking_disabled,
        system_prompt: types::copy_opt(&a.system_prompt),
        session_id: types::copy_opt(&a.session_id),
        has_memory,
        auto_compact: a.auto_compact,
        tool_result_budget: a.tool_result_budget,
        turns_elapsed_cadence: a.turns_elapsed_cadence,
        benchmark_mode: a.benchmark_mode,
    }
}

// ─── What holds of every run ─────────────────────────────────────────────────

/// The run after requests that failed one after another.
pub open spec fn after_failures(run: RunView, errors: Seq<FailView>) -> RunView
    decreases errors.len(),
{
    if errors.len() == 0 {
        run
    } else {
        let before = after_failures(run, errors.drop_last());
        before.after_failure(before.retries(errors.last()))
    }
}

/// A request that fails for a passing reason is made again five times; the sixth
/// failure in a row fails the run with its error. Nothing else changes meanwhile.
pub proof fn passing_failures_are_retried_five_times(
    run: RunView,
    errors: Seq<FailView>,
    next: FailView,
)
    requires
        run.retry_count == 0,
        errors.len() <= MAX_RETRIES,
        forall|i: int| 0 <= i < errors.len() ==> (#[trigger] errors[i]).retryable(),
        next.retryable(),
    ensures
        ({
            let now = after_failures(run, errors);
            &&& now == (RunView { retry_count: errors.len() as u32, ..run })
            &&& now.failure_step(next, now.retries(next)) == quietly(
                if errors.len() < MAX_RETRIES {
                    WorkView::Backoff { retry: (errors.len() + 1) as u32 }
                } else {
                    WorkView::Fail(next)
                },
            )
        }),
    decreases errors.len(),
{
    if errors.len() > 0 {
        let rest = errors.drop_last();
        assert(forall|i: int| 0 <= i < rest.len() ==> rest[i] == #[trigger] errors[i]);
        assert(errors[errors.len() - 1] == errors.last());
        passing_failures_are_retried_five_times(run, rest, errors.last());
    }
}

/// A failure that will not pass fails the run at once.
pub proof fn lasting_failures_are_not_retried(run: RunView, error: FailView)
    requires
        !error.retryable(),
    ensures
        run.failure_step(error, run.retries(error)) == quietly(WorkView::Fail(error)),
{
}

/// Once the provider has started to respond, an error of the stream fails the run:
/// what was already shown is never asked for again.
pub proof fn started_responses_are_not_repeated(
    run: RunView,
    message: Seq<char>,
    kind: types::StreamErrorKind,
)
    requires
        run.acc.message_id is Some,
    ensures
        run.stream_step(types::EventView::Error { message, kind }) == quietly(
            WorkView::Fail(kind_error(kind, message)),
        ),
{
}

/// The provider is asked only within the limit of turns, and never after a
/// cancellation.
pub proof fn turns_are_limited(
    run: RunView,
    cancelled: bool,
    incomplete: nat,
    tools: Seq<types::ToolView>,
)
    requires
        run.turn < u32::MAX,
    ensures
        run.turn_step(cancelled, incomplete, tools).work is Complete <==> !cancelled && run.turn
            < run.settings.max_turns,
        run.turned(cancelled).turn == run.turn + 1,
{
}

/// How often a run may still be sent on after the model has finished.
pub open spec fn allowance(run: RunView) -> int {
    (if run.completion_verified {
        0int
    } else {
        1
    }) + (BENCHMARK_MAX_RETRIES - run.benchmark_retries) + (if run.depth_nudge_sent {
        0int
    } else {
        1
    })
}

/// When the model has finished it is sent on at most six times in a run: each
/// time uses up one of the checks, test retries and nudges that there are.
pub proof fn finished_models_are_sent_on_finitely_often(run: RunView)
    requires
        run.benchmark_retries <= BENCHMARK_MAX_RETRIES,
    ensures
        ({
            let (next, step) = run.finished_turn();
            &&& 0 <= allowance(run) <= 6
            &&& step.work is BeginTurn ==> allowance(next) == allowance(run) - 1
            &&& !(step.work is BeginTurn) ==> next == run && step.work == closing_work(
                run.settings,
            )
            &&& next.benchmark_retries <= BENCHMARK_MAX_RETRIES
        }),
{
}

/// A response that stops at its token limit is continued three times in a row.
pub proof fn token_limits_are_continued_three_times(run: RunView)
    requires
        run.last_stop_reason == StopReason::MaxTokens,
        run.max_tokens_retries < u32::MAX,
    ensures
        ({
            let (next, step) = run.stopped();
            if run.max_tokens_retries < MAX_TOKENS_RETRY_LIMIT {
                &&& next.messages == run.messages.push(
                    types::MessageView::plain(Role::User, CONTINUE_NUDGE@),
                )
                &&& step.work == compaction_work(run.settings)
            } else {
                &&& next.messages == run.messages
                &&& step.work == closing_work(run.settings)
            }
        }),
{
}

/// A run is warned of repeating itself at most once.
pub proof fn doom_loop_is_warned_of_once(run: RunView)
    ensures
        run.warns() ==> run.tools_done().doom_loop_warned,
        run.doom_loop_warned ==> run.tools_done() == run.with_results()
            && run.tools_step().events.len() == 0,
{
}

/// An edit of a file that exists and was not read comes back as an error.
pub proof fn unread_files_are_not_edited(run: RunView, u: UseView, outcome: Outcome)
    requires
        edits(u.name),
        !outcome.is_error,
        file_of(u.input) is Some,
        !run.files_read.contains(file_of(u.input)->0),
    ensures
        run.settled_outcome(u, outcome, true).is_error,
        !run.settled_outcome(u, outcome, false).is_error,
{
    lemma_reads_are_not_edits(u.name);
}

/// After a file was read, an edit of it stands.
pub proof fn read_files_may_be_edited(
    run: RunView,
    read: UseView,
    content: Seq<char>,
    read_exists: bool,
    edit: UseView,
    outcome: Outcome,
    exists_now: bool,
)
    requires
        reads(read.name),
        edits(edit.name),
        file_of(read.input) is Some,
        file_of(edit.input) == file_of(read.input),
        !outcome.is_error,
    ensures
        run.settled(read, Outcome { content, is_error: false }, read_exists).settled_outcome(
            edit,
            outcome,
            exists_now,
        ) == outcome,
{
    lemma_reads_are_not_edits(read.name);
}

/// Files that were read stay read.
pub proof fn files_stay_read(
    run: RunView,
    u: UseView,
    outcome: Outcome,
    target_exists: bool,
    path: Seq<char>,
)
    requires
        run.files_read.contains(path),
    ensures
        run.settled(u, outcome, target_exists).files_read.contains(path),
{
}

/// Failures of a tool are counted from one, and a success starts the count anew.
pub proof fn failures_are_counted_since_the_last_success(
    run: RunView,
    u: UseView,
    outcome: Outcome,
    target_exists: bool,
)
    ensures
        ({
            let next = run.settled(u, outcome, target_exists);
            if run.guarded(u, outcome, target_exists).is_error {
                &&& next.tool_errors.contains_key(u.name)
                &&& !run.tool_errors.contains_key(u.name) ==> next.tool_errors[u.name] == 1
                &&& run.tool_errors.contains_key(u.name) && run.tool_errors[u.name] < u32::MAX
                    ==> next.tool_errors[u.name] == run.tool_errors[u.name] + 1
            } else {
                !next.tool_errors.contains_key(u.name)
            }
        }),
{
}

/// A call that has come back: the call, its settled result, the content as
/// compression left it, and how long it took.
pub ghost struct Finished {
    pub u: UseView,
    pub outcome: Outcome,
    pub compressed: Seq<char>,
    pub duration_nanos: u128,
}

/// The run once all the calls are recorded.
pub open spec fn all_recorded(run: RunView, finished: Seq<Finished>) -> RunView
    decreases finished.len(),
{
    if finished.len() == 0 {
        run
    } else {
        let f = finished.last();
        all_recorded(run, finished.drop_last()).recorded(
            f.u,
            f.outcome,
            f.compressed,
            f.duration_nanos,
        )
    }
}

/// Every call of a tool is answered, once and in order: the message with the
/// results holds one result for each call, under the id of the call.
pub proof fn every_call_is_answered_in_order(run: RunView, finished: Seq<Finished>)
    requires
        run.results.len() == 0,
    ensures
        ({
            let results = all_recorded(run, finished).results;
            &&& results.len() == finished.len()
            &&& forall|i: int|
                0 <= i < finished.len() ==> (#[trigger] results[i] matches types::BlockView::ToolResult {
                    tool_use_id,
                    is_error,
                    ..
                } && tool_use_id == finished[i].u.id && is_error == Some(
                    finished[i].outcome.is_error,
                ))
        }),
        all_recorded(run, finished).calls.len() == run.calls.len() + finished.len(),
    decreases finished.len(),
{
    if finished.len() > 0 {
        every_call_is_answered_in_order(run, finished.drop_last());
        let before = all_recorded(run, finished.drop_last()).results;
        let results = all_recorded(run, finished).results;
        assert forall|i: int| 0 <= i < finished.len() implies (#[trigger] results[i] matches types::BlockView::ToolResult {
            tool_use_id,
            is_error,
            ..
        } && tool_use_id == finished[i].u.id && is_error == Some(finished[i].outcome.is_error)) by {
            if i < finished.len() - 1 {
                assert(results[i] == before[i]);
                assert(finished.drop_last()[i] == finished[i]);
            }
        }
    }
}

/// A compaction keeps the last messages, after the summary.
pub proof fn compaction_keeps_recent_messages(run: RunView, summary: Seq<char>, keep: int, i: int)
    requires
        0 <= keep <= run.messages.len(),
        0 <= i < keep,
    ensures
        ({
            let next = run.summarised(summary, keep).messages;
            &&& next.len() == keep + 1
            &&& next[0] == types::MessageView::plain(Role::User, summary)
            &&& next[1 + i] == run.messages[run.messages.len() - keep + i]
        }),
{
}

/// The prompt is what the model is told last before the first turn.
pub proof fn runs_begin_with_the_prompt(run: RunView, history: Seq<types::MessageView>)
    ensures
        run.with_history(history).messages == run.messages + history.push(
            types::MessageView::plain(Role::User, expanded(run.prompt)),
        ),
{
    assert(run.with_history(history).messages =~= run.messages + history.push(
        types::MessageView::plain(Role::User, expanded(run.prompt)),
    ));
}

/// Whenever a turn asks the provider, the request offers exactly the tools that were
/// handed in, in their order. It holds the conversation of the run within its budget, and
/// the model, the limit of tokens and the temperature of the settings.
pub proof fn turns_ask_with_the_tools_at_hand(
    run: RunView,
    cancelled: bool,
    incomplete: nat,
    tools: Seq<types::ToolView>,
)
    requires
        run.turn < u32::MAX,
        !cancelled && run.turn < run.settings.max_turns,
    ensures
        run.turn_step(cancelled, incomplete, tools).work matches WorkView::Complete(request) && {
            &&& request.tools == tools
            &&& request.messages == run.turned(cancelled).messages
            &&& request.messages == tool_results::budgeted(
                run.messages,
                run.settings.tool_result_budget as int,
            )
            &&& request.messages.len() == run.messages.len()
            &&& tool_results::total_size(run.messages) <= run.settings.tool_result_budget
                ==> request.messages == run.messages
            &&& run.settings.model is Some ==> request.model == run.settings.model->0@
            &&& run.settings.model is None ==> request.model == run.settings.default_model@
            &&& request.max_tokens == run.settings.max_tokens
            &&& run.settings.temperature is Some ==> request.temperature == Some(
                run.settings.temperature->0@,
            )
            &&& run.settings.temperature is None ==> request.temperature is None
            &&& request.stop_sequences.len() == 0
        },
{
    if run.messages.len() > 0 {
        tool_results::budget_touches_only_old_large_results(
            run.messages,
            run.settings.tool_result_budget as int,
            0,
        );
    }
}

/// The system prompt of the settings is sent on every turn. From the third turn on, and
/// only then, a reminder that names the number of open tasks stands behind it.
pub proof fn turns_ask_with_the_system_prompt(
    run: RunView,
    incomplete: nat,
    tools: Seq<types::ToolView>,
)
    requires
        run.turn < u32::MAX,
        run.turn < run.settings.max_turns,
    ensures
        run.turn_step(false, incomplete, tools).work matches WorkView::Complete(request) && {
            &&& run.settings.system_prompt is None ==> request.system is None
            &&& run.settings.system_prompt is Some ==> {
                let own = run.settings.system_prompt->0@;
                &&& request.system is Some
                &&& own.is_prefix_of(request.system->0)
                &&& run.turn < 2 || incomplete == 0 ==> request.system->0 == own
                &&& run.turn >= 2 && incomplete > 0 ==> text::occurs(
                    text::decimal(incomplete),
                    request.system->0.skip(own.len() as int),
                )
            }
        },
{
    if run.settings.system_prompt is Some {
        let own = run.settings.system_prompt->0@;
        let nudge = todo_nudge(incomplete);
        let d = text::decimal(incomplete);
        let at = "\n\n[system reminder: You have "@.len() as int;
        assert((own + nudge).skip(own.len() as int) =~= nudge);
        assert(nudge.subrange(at, at + d.len()) =~= d);
        assert(text::occurs_at(d, nudge, at));
    }
}

/// A request says how much the model may think: within the budget of the settings, or not
/// at all where they say so, and else nothing.
pub proof fn turns_ask_for_thinking(
    run: RunView,
    incomplete: nat,
    tools: Seq<types::ToolView>,
)
    requires
        run.turn < u32::MAX,
        run.turn < run.settings.max_turns,
    ensures
        run.turn_step(false, incomplete, tools).work matches WorkView::Complete(request) && {
            &&& run.settings.thinking_budget is Some ==> json::holds(
                request.options,
                "thinking_budget"@,
                json::JsonView::UInt(run.settings.thinking_budget->0 as u64),
            )
            &&& run.settings.thinking_budget is None && run.settings.thinking_disabled
                ==> json::holds(
                request.options,
                "thinking_disabled"@,
                json::JsonView::Bool(true),
            )
            &&& run.settings.thinking_budget is None && !run.settings.thinking_disabled
                ==> request.options == Map::<Seq<char>, json::JsonView>::empty()
        },
{
}

/// What the model writes is told at once, as it is, and gathered; a response that is
/// taken starts from nothing.
pub proof fn deltas_are_told_and_gathered(run: RunView, index: usize, t: Seq<char>)
    ensures
        ({
            let e = types::EventView::TextDelta { index, text: t };
            &&& run.stream_step(e).events == seq![Announced::TextDelta(t)]
            &&& run.stream_step(e).work is ReadStream
            &&& run.streamed(e) == (RunView { acc: run.acc.after(e), ..run })
        }),
        ({
            let e = types::EventView::ThinkingDelta { index, thinking: t };
            &&& run.stream_step(e).events == seq![Announced::ThinkingDelta(t)]
            &&& run.stream_step(e).work is ReadStream
            &&& run.streamed(e) == (RunView { acc: run.acc.after(e), ..run })
        }),
        run.answered() == (RunView { acc: stream::Accumulated::empty(), ..run }),
        run.answered_step().work is ReadStream,
{
}

/// Every other event of a response but an error is gathered, and reading goes on.
pub proof fn events_are_gathered(run: RunView, event: types::EventView)
    requires
        !(event is Error),
    ensures
        run.streamed(event) == (RunView { acc: run.acc.after(event), ..run }),
        run.stream_step(event).work is ReadStream,
{
}

/// A complete response is the last message of the conversation, after all that was there;
/// it is of the assistant and holds the blocks that were gathered. Its usage is added to
/// that of the run, and its stop reason decides what comes next.
pub proof fn responses_are_kept(run: RunView)
    ensures
        ({
            let next = run.responded();
            &&& next.messages.len() == run.messages.len() + 1
            &&& next.messages.drop_last() == run.messages
            &&& next.messages.last().role == Role::Assistant
            &&& run.acc.blocks.len() > 0 ==> next.messages.last().content
                == types::ContentView::Blocks(run.acc.blocks)
            &&& run.acc.stop_reason is Some ==> next.last_stop_reason == run.acc.stop_reason->0
            &&& run.acc.stop_reason is None ==> next.last_stop_reason == StopReason::EndTurn
            &&& run.usage.input_tokens + run.acc.usage.input_tokens <= u64::MAX
                ==> next.usage.input_tokens == run.usage.input_tokens
                + run.acc.usage.input_tokens
            &&& run.usage.output_tokens + run.acc.usage.output_tokens <= u64::MAX
                ==> next.usage.output_tokens == run.usage.output_tokens
                + run.acc.usage.output_tokens
            &&& next.turn_usage == run.acc.usage
            &&& run.response_step().work == (WorkView::RunHooks {
                message_count: next.messages.len() as int,
            })
        }),
{
    assert(run.responded().messages.drop_last() =~= run.messages);
}

proof fn lemma_uses_are_calls(blocks: Seq<types::BlockView>)
    ensures
        ({
            let calls = blocks.filter(|b: types::BlockView| b is ToolUse);
            &&& uses_in(blocks).len() == calls.len()
            &&& forall|i: int|
                0 <= i < calls.len() ==> (#[trigger] calls[i]) is ToolUse && uses_in(blocks)[i]
                    == (UseView {
                    id: calls[i]->id,
                    name: calls[i]->name,
                    input: calls[i]->input,
                })
        }),
    decreases blocks.len(),
{
    reveal(Seq::filter);
    if blocks.len() > 0 {
        lemma_uses_are_calls(blocks.drop_last());
    }
}

/// When the model stops for tools, exactly the calls of its last message are run, in
/// their order, with their ids, names and inputs; and each is announced.
pub proof fn the_calls_of_the_model_are_run(run: RunView, blocks: Seq<types::BlockView>)
    requires
        run.last_stop_reason == StopReason::ToolUse,
        run.messages.len() > 0,
        run.messages.last().content == types::ContentView::Blocks(blocks),
    ensures
        ({
            let calls = blocks.filter(|b: types::BlockView| b is ToolUse);
            let (next, step) = run.stopped();
            &&& step.work matches WorkView::RunTools(uses)
            &&& uses.len() == calls.len() && step.events.len() == calls.len()
            &&& forall|i: int|
                0 <= i < calls.len() ==> {
                    &&& (#[trigger] calls[i]) is ToolUse
                    &&& uses[i].id == calls[i]->id
                    &&& uses[i].name == calls[i]->name
                    &&& uses[i].input == calls[i]->input
                    &&& step.events[i] == (Announced::ToolStart {
                        name: calls[i]->name,
                        id: calls[i]->id,
                        input: calls[i]->input,
                    })
                }
            &&& next.messages == run.messages && next.results.len() == 0
        }),
{
    lemma_uses_are_calls(blocks);
}

/// A result is told to the model under the id of its call: a failure as it is, a success
/// of few lines and few bytes as compression left it. The call is recorded with its name,
/// its input and what came of it.
pub proof fn results_are_told_as_they_came(
    run: RunView,
    u: UseView,
    outcome: Outcome,
    compressed: Seq<char>,
    duration_nanos: u128,
)
    ensures
        ({
            let next = run.recorded(u, outcome, compressed, duration_nanos);
            &&& next.results.len() == run.results.len() + 1
            &&& next.results.drop_last() == run.results
            &&& next.results.last() matches types::BlockView::ToolResult {
                tool_use_id,
                content,
                is_error,
            }
            &&& tool_use_id == u.id && is_error == Some(outcome.is_error)
            &&& outcome.is_error ==> content == types::ResultView::Text(outcome.content)
            &&& !outcome.is_error && text::lines_of(compressed).len() <= 165
                && tool_results::byte_len(compressed) <= 20_000 ==> content
                == types::ResultView::Text(compressed)
            &&& next.calls.len() == run.calls.len() + 1
            &&& next.calls.drop_last() == run.calls
            &&& next.calls.last().name == u.name && next.calls.last().id == u.id
            &&& next.calls.last().input == u.input
            &&& next.calls.last().result == outcome.content
            &&& next.calls.last().is_error == outcome.is_error
            &&& next.messages == run.messages
        }),
{
    let next = run.recorded(u, outcome, compressed, duration_nanos);
    assert(next.results.drop_last() =~= run.results);
    assert(next.calls.drop_last() =~= run.calls);
    if text::lines_of(compressed).len() <= 165 && tool_results::byte_len(compressed) <= 20_000 {
        tool_results::cap_keeps_small_results(compressed);
    }
}

/// The results of all tools go into the conversation in one message of the user, behind
/// all that was there, and the next turn follows.
pub proof fn results_go_into_the_conversation(run: RunView)
    ensures
        ({
            let next = run.tools_done();
            let n = run.messages.len() as int;
            &&& next.messages.len() > n
            &&& next.messages.take(n) == run.messages
            &&& next.messages[n].role == Role::User
            &&& next.messages[n].content == types::ContentView::Blocks(run.results)
            &&& next.results.len() == 0
            &&& next.calls == run.calls
            &&& run.settings.auto_compact ==> run.tools_step().work is Compact
            &&& !run.settings.auto_compact ==> run.tools_step().work is BeginTurn
        }),
{
    assert(run.tools_done().messages.take(run.messages.len() as int) =~= run.messages);
}

/// Guards leave a success alone, unless it is an edit of a file that exists and was not
/// read; a failure stays a failure, and what it said stands first.
pub proof fn guards_leave_results_alone(
    run: RunView,
    u: UseView,
    outcome: Outcome,
    target_exists: bool,
)
    ensures
        !outcome.is_error && (!target_exists || (u.name != "Edit"@ && u.name != "edit"@))
            ==> run.settled_outcome(u, outcome, target_exists) == outcome,
        outcome.is_error ==> run.settled_outcome(u, outcome, target_exists).is_error
            && outcome.content.is_prefix_of(
            run.settled_outcome(u, outcome, target_exists).content,
        ),
        run.settled(u, outcome, target_exists).messages == run.messages,
        (u.name == "Read"@ || u.name == "read"@) && !outcome.is_error && u.input is Object
            && u.input->Object_0.contains_key("file_path"@)
            && u.input->Object_0["file_path"@] is Str ==> run.settled(
            u,
            outcome,
            target_exists,
        ).files_read.contains(u.input->Object_0["file_path"@]->Str_0),
{
    lemma_reads_are_not_edits(u.name);
}

/// A run without tests to pass ends when the model has finished, unless it used tools and
/// finished within the first turns, which sends it on once: the session is saved where
/// there is one, and nothing more is said.
pub proof fn finished_runs_end(run: RunView)
    requires
        run.last_stop_reason == StopReason::EndTurn || run.last_stop_reason
            == StopReason::StopSequence,
        !run.settings.benchmark_mode,
        !run.had_tool_use || run.turn > 4 || run.depth_nudge_sent,
    ensures
        run.stopped().0 == run,
        run.settings.has_memory && run.settings.session_id is Some ==> run.stopped().1.work == (
        WorkView::SaveSession { session_id: run.settings.session_id->0@ }),
        !run.settings.has_memory || run.settings.session_id is None
            ==> run.stopped().1.work is Finish,
{
}

/// Where the tests of a benchmark failed, the model is told what they said and takes
/// another turn; where they passed the run ends.
pub proof fn failed_tests_are_told(run: RunView, output: Seq<char>)
    requires
        run.last_stop_reason == StopReason::EndTurn,
        run.settings.benchmark_mode,
        run.completion_verified,
        run.benchmark_retries < 4,
        text::occurs("test_outputs.py"@, run.prompt) || text::occurs("run_tests"@, run.prompt) || text::occurs("run-tests"@, run.prompt) || text::occurs("pytest"@, run.prompt) || text::occurs("verify.py"@, run.prompt) || text::occurs("check.py"@, run.prompt) || text::occurs("npm test"@, run.prompt) || text::occurs("cargo test"@, run.prompt) || text::occurs("make test"@, run.prompt),
    ensures
        benchmark::verdict(run.calls) == benchmark::Verdict::TestsFailed(output) && output.len()
            <= 3000 ==> {
            let (next, step) = run.stopped();
            &&& step.work is BeginTurn
            &&& next.benchmark_retries == run.benchmark_retries + 1
            &&& next.messages.drop_last() == run.messages
            &&& next.messages.last().role == Role::User
            &&& next.messages.last().content matches types::ContentView::Text(t) && text::occurs(
                output,
                t,
            )
        },
        benchmark::verdict(run.calls) is TestsPassed ==> run.stopped().0 == run && !(
        run.stopped().1.work is BeginTurn),
{
    let attempt = (run.benchmark_retries + 1) as u32;
    let t = failed_tests_nudge(attempt as nat, output);
    let head = "[system] Verification FAILED (attempt "@ + text::decimal(attempt as nat) + "/"@
        + text::decimal(BENCHMARK_MAX_RETRIES as nat) + ").\n\nOutput:\n```\n"@;
    let at = head.len() as int;
    if output.len() <= 3000 {
        assert(t.subrange(at, at + output.len()) =~= output);
        assert(text::occurs_at(output, t, at));
    }
    assert(run.told(t).messages.drop_last() =~= run.messages);
}

/// A model that finishes a benchmark without a look at its work in its last calls is sent
/// to look at it, once.
pub proof fn work_is_looked_at_before_the_end(run: RunView)
    requires
        run.last_stop_reason == StopReason::EndTurn,
        run.settings.benchmark_mode,
        !run.completion_verified,
        run.turn >= 3,
        run.calls.len() == 0,
    ensures
        run.stopped().0.completion_verified,
        run.stopped().0.messages == run.messages.push(
            types::MessageView::plain(Role::User, VERIFY_NUDGE@),
        ),
        run.stopped().1.work is BeginTurn,
{
}

/// Commands that run or show what was made count as a look at it.
pub proof fn looks_are_told_by_their_commands(command: Seq<char>)
    requires
        text::occurs("cat "@, command) || text::occurs("python "@, command) || text::occurs("test"@, command) || text::occurs("verify"@, command) || text::occurs("node "@, command) || text::occurs("./"@, command) || text::occurs("check"@, command),
    ensures
        checks_work(command),
{
}

/// The model gets the prompt as it is, with a hint behind it where it asks for an
/// analysis.
pub proof fn prompts_are_given_as_they_are(prompt: Seq<char>)
    ensures
        prompt.is_prefix_of(expanded(prompt)),
        !(text::occurs("index"@, prompt) || text::occurs("analyze"@, prompt) || text::occurs("explore"@, prompt) || text::occurs("understand"@, prompt) || text::occurs("tell me about"@, prompt) || text::occurs("summary"@, prompt)) ==> expanded(prompt) == prompt,
        (text::occurs("index"@, prompt) || text::occurs("analyze"@, prompt) || text::occurs("explore"@, prompt) || text::occurs("understand"@, prompt) || text::occurs("tell me about"@, prompt) || text::occurs("summary"@, prompt)) ==> expanded(prompt) == prompt + ANALYSIS_HINT@,
{
}

/// What a run gives back is the last message of the assistant.
pub proof fn the_last_answer_is_given_back(messages: Seq<types::MessageView>, i: int)
    requires
        0 <= i < messages.len(),
        messages[i].role == Role::Assistant,
        forall|j: int| i < j < messages.len() ==> (#[trigger] messages[j]).role != Role::Assistant,
    ensures
        last_answer(messages) == messages[i],
    decreases messages.len(),
{
    if i < messages.len() - 1 {
        assert(messages[messages.len() - 1].role != Role::Assistant);
        let rest = messages.drop_last();
        assert forall|j: int| i < j < rest.len() implies (#[trigger] rest[j]).role
            != Role::Assistant by {
            assert(rest[j] == messages[j]);
        }
        the_last_answer_is_given_back(rest, i);
    }
}

/// A model repeats itself where its last three calls of six or more were of one tool and
/// failed, or its last six went back and forth between two tools; and not where its last
/// call was of a tool that none of the three before it was of.
pub proof fn repetition_is_told_by_the_last_calls(calls: Seq<agent::RecordView>)
    requires
        calls.len() >= 6,
    ensures
        ({
            let n = calls.len() as int;
            &&& (forall|k: int|
                1 <= k <= 3 ==> (#[trigger] calls[n - k]).is_error && calls[n - k].name == calls[n
                    - 1].name) ==> in_doom_loop(calls)
            &&& (forall|k: int|
                1 <= k <= 6 ==> (#[trigger] calls[n - k]).name == if k % 2 == 1 {
                    calls[n - 1].name
                } else {
                    calls[n - 2].name
                }) ==> in_doom_loop(calls)
            &&& calls[n - 1].name != calls[n - 2].name && calls[n - 1].name != calls[n - 3].name
                ==> !in_doom_loop(calls)
        }),
{
    let n = calls.len() as int;
    assert(calls[n - 1] == calls[n - 1] && calls[n - 2] == calls[n - 2]);
    if forall|k: int|
        1 <= k <= 3 ==> (#[trigger] calls[n - k]).is_error && calls[n - k].name == calls[n
            - 1].name {
        assert(calls[n - 1].is_error && calls[n - 2].is_error && calls[n - 3].is_error);
        assert(calls[n - 2].name == calls[n - 1].name && calls[n - 3].name == calls[n - 1].name);
    }
    if forall|k: int|
        1 <= k <= 6 ==> (#[trigger] calls[n - k]).name == if k % 2 == 1 {
            calls[n - 1].name
        } else {
            calls[n - 2].name
        } {
        assert(calls[n - 3].name == calls[n - 1].name && calls[n - 5].name == calls[n - 1].name);
        assert(calls[n - 4].name == calls[n - 2].name && calls[n - 6].name == calls[n - 2].name);
    }
}

/// The wait before the first repetition is a second, and each later one is twice the one
/// before it, up to half a minute.
pub proof fn waits_double(retry: int)
    requires
        retry >= 1,
    ensures
        base_delay(1) == 1000,
        base_delay(retry + 1) == if 2 * base_delay(retry) > 30_000 {
            30_000
        } else {
            2 * base_delay(retry)
        },
{
    vstd::arithmetic::power2::lemma2_to64();
    vstd::arithmetic::power2::lemma_pow2_unfold(retry as nat);
    vstd::arithmetic::power2::lemma_pow2_pos((retry - 1) as nat);
}

/// A lost connection, too many requests and a fault of the server may pass; credentials,
/// settings, what the provider refuses and a cancellation do not.
pub proof fn what_may_pass(status: u16, m: Seq<char>)
    ensures
        FailView::Transport(m).retryable(),
        (FailView::Http { status: 429, message: m }).retryable(),
        500 <= status ==> (FailView::Http { status, message: m }).retryable(),
        status < 500 && status != 429 ==> !(FailView::Http { status, message: m }).retryable(),
        !FailView::Auth(m).retryable(),
        !FailView::Config(m).retryable(),
        !FailView::Provider(m).retryable(),
        !FailView::Memory(m).retryable(),
        !FailView::Tool(m).retryable(),
        !FailView::Cancelled.retryable(),
        kind_error(types::StreamErrorKind::Http { status }, m) == (FailView::Http {
            status,
            message: m,
        }),
        kind_error(types::StreamErrorKind::Transport, m) == FailView::Transport(m),
        kind_error(types::StreamErrorKind::Provider, m) == FailView::Provider(m),
{
}

/// A run starts with the conversation and the usage that it was handed, and with nothing
/// done: no turn, call, retry, warning or failure counts yet.
pub proof fn runs_start_with_nothing_done(
    settings: RunSettings,
    prompt: Seq<char>,
    messages: Seq<types::MessageView>,
    usage: Usage,
)
    ensures
        ({
            let run = RunView::initial(settings, prompt, messages, usage);
            &&& run.settings == settings && run.prompt == prompt
            &&& run.messages == messages && run.usage == usage
            &&& run.turn == 0 && run.retry_count == 0 && run.max_tokens_retries == 0
            &&& run.benchmark_retries == 0
            &&& run.calls.len() == 0 && run.results.len() == 0
            &&& !run.had_tool_use && !run.depth_nudge_sent && !run.doom_loop_warned
            &&& !run.completion_verified
            &&& forall|path: Seq<char>| !run.files_read.contains(path)
            &&& forall|name: Seq<char>| !run.tool_errors.contains_key(name)
            &&& run.loads_history() <==> messages.len() == 0 && settings.has_memory
                && settings.session_id is Some
        }),
{
}

/// A history that is loaded is told of with its session and its length, unless it is
/// empty, and the first turn follows.
pub proof fn loaded_histories_are_told_of(run: RunView, history: Seq<types::MessageView>)
    requires
        run.settings.session_id is Some,
    ensures
        ({
            let step = run.history_step(history);
            &&& step.work is BeginTurn
            &&& history.len() == 0 ==> step.events.len() == 0
            &&& history.len() > 0 ==> step.events == seq![
                Announced::SessionLoaded {
                    session_id: run.settings.session_id->0@,
                    message_count: history.len() as int,
                },
            ]
        }),
{
}

/// When the provider has taken a request, it is told which model answers in which turn: the
/// one of the settings, or else the default one.
pub proof fn answers_are_announced(run: RunView)
    ensures
        run.answered_step().events == seq![
            Announced::ModelResponseStart {
                turn: run.turn,
                model: if run.settings.model is Some {
                    run.settings.model->0@
                } else {
                    run.settings.default_model@
                },
            },
        ],
{
}

/// The usage of a response is told of, and that of the run with it.
pub proof fn usage_is_announced(run: RunView)
    ensures
        run.response_step().events == seq![
            Announced::CostUpdate {
                turn_usage: run.acc.usage,
                cumulative: run.responded().usage,
            },
        ],
{
}

/// Every turn ends with an announcement that it is complete, with its number, its stop
/// reason and its usage, before anything else that is announced.
pub proof fn turns_are_announced_as_complete(run: RunView)
    ensures
        run.end_step().events.len() == run.stopped().1.events.len() + 1,
        run.end_step().events[0] == (Announced::TurnComplete {
            turn: run.turn,
            stop_reason: run.last_stop_reason,
            usage: run.turn_usage,
        }),
        run.end_step().events.skip(1) == run.stopped().1.events,
        run.end_step().work == run.stopped().1.work,
{
    assert(run.end_step().events.skip(1) =~= run.stopped().1.events);
}

/// A model that used tools and finishes within the first four turns is sent on, once, with
/// what it has to do.
pub proof fn early_ends_are_sent_on_once(run: RunView)
    requires
        run.last_stop_reason == StopReason::EndTurn,
        !run.settings.benchmark_mode,
        run.had_tool_use,
        run.turn <= 4,
        !run.depth_nudge_sent,
    ensures
        ({
            let (next, step) = run.stopped();
            &&& step.work is BeginTurn
            &&& next.depth_nudge_sent
            &&& next.messages == run.messages.push(
                types::MessageView::plain(Role::User, DEPTH_NUDGE@),
            )
            &&& next.turn == run.turn
        }),
{
}

/// A stop for tools is remembered, and starts the count of token limits and the results
/// anew.
pub proof fn tools_start_the_counts_anew(run: RunView)
    requires
        run.last_stop_reason == StopReason::ToolUse,
    ensures
        run.stopped().0.had_tool_use,
        run.stopped().0.max_tokens_retries == 0,
        run.stopped().0.results.len() == 0,
        run.stopped().0.calls == run.calls,
        run.stopped().0.turn == run.turn,
{
}

/// A response that stops at its token limit for the first, second or third time in a row is
/// continued; the fourth time ends the run.
pub proof fn token_limits_are_counted(run: RunView)
    requires
        run.last_stop_reason == StopReason::MaxTokens,
        run.max_tokens_retries < u32::MAX,
    ensures
        run.stopped().0.max_tokens_retries == run.max_tokens_retries + 1,
        run.max_tokens_retries < 3 ==> run.stopped().0.messages == run.messages.push(
            types::MessageView::plain(
                Role::User,
                "Continue from exactly where you stopped."@,
            ),
        ) && (run.settings.auto_compact ==> run.stopped().1.work is Compact) && (
        !run.settings.auto_compact ==> run.stopped().1.work is BeginTurn),
        run.max_tokens_retries >= 3 ==> run.stopped().0.messages == run.messages && (
        run.stopped().1.work is SaveSession || run.stopped().1.work is Finish),
{
}

proof fn lemma_checked_recently(calls: Seq<agent::RecordView>, n: int)
    ensures
        recently_checked(calls, n) <==> exists|i: int|
            0 <= i < calls.len() && calls.len() - n <= i && checks_work(
                benchmark::command_of((#[trigger] calls[i]).input),
            ),
    decreases calls.len(),
{
    if calls.len() > 0 && n > 0 {
        let rest = calls.drop_last();
        let last = calls.len() - 1;
        lemma_checked_recently(rest, n - 1);
        if recently_checked(rest, n - 1) {
            let i = choose|i: int|
                0 <= i < rest.len() && rest.len() - (n - 1) <= i && checks_work(
                    benchmark::command_of((#[trigger] rest[i]).input),
                );
            assert(calls[i] == rest[i]);
        }
        if checks_work(benchmark::command_of(calls.last().input)) {
            assert(calls[last] == calls.last());
        }
        if exists|i: int|
            0 <= i < calls.len() && calls.len() - n <= i && checks_work(
                benchmark::command_of((#[trigger] calls[i]).input),
            ) {
            let i = choose|i: int|
                0 <= i < calls.len() && calls.len() - n <= i && checks_work(
                    benchmark::command_of((#[trigger] calls[i]).input),
                );
            if i < last {
                assert(rest[i] == calls[i]);
            }
        }
    }
}

/// In a benchmark, a model that finishes from its third turn on is sent to look at its work,
/// once, just where none of its last five calls did.
pub proof fn the_last_five_calls_may_look_at_the_work(run: RunView)
    requires
        run.last_stop_reason == StopReason::EndTurn,
        run.settings.benchmark_mode,
    ensures
        ({
            let looked = exists|i: int|
                0 <= i < run.calls.len() && run.calls.len() - 5 <= i && checks_work(
                    benchmark::command_of((#[trigger] run.calls[i]).input),
                );
            let sent = !run.completion_verified && run.turn >= 3 && !looked;
            &&& sent ==> run.stopped().0.completion_verified && run.stopped().1.work is BeginTurn
                && run.stopped().0.messages == run.messages.push(
                types::MessageView::plain(Role::User, VERIFY_NUDGE@),
            ) && run.stopped().0.benchmark_retries == run.benchmark_retries
            &&& !sent ==> run.stopped().0.completion_verified == run.completion_verified
        }),
{
    lemma_checked_recently(run.calls, 5);
}

/// Only commands that run or show what was made count as a look at it.
pub proof fn other_commands_do_not_look_at_the_work(command: Seq<char>)
    requires
        checks_work(command),
    ensures
        text::occurs("cat "@, command) || text::occurs("python "@, command) || text::occurs(
            "test"@,
            command,
        ) || text::occurs("verify"@, command) || text::occurs("node "@, command) || text::occurs(
            "./"@,
            command,
        ) || text::occurs("check"@, command),
{
}

/// In a benchmark whose prompt names tests that were never run, the model is told once to
/// run them; where it was told before, the run ends.
pub proof fn tests_that_were_not_run_are_asked_for(run: RunView)
    requires
        run.last_stop_reason == StopReason::EndTurn,
        run.settings.benchmark_mode,
        run.completion_verified,
        run.benchmark_retries < 4,
        names_tests(run.prompt),
        benchmark::verdict(run.calls) is TestsNotRun,
    ensures
        run.benchmark_retries == 0 ==> run.stopped().1.work is BeginTurn
            && run.stopped().0.benchmark_retries == 1 && run.stopped().0.messages
            == run.messages.push(types::MessageView::plain(Role::User, RUN_TESTS_NUDGE@)),
        run.benchmark_retries > 0 ==> run.stopped().0 == run && (run.stopped().1.work is SaveSession
            || run.stopped().1.work is Finish),
{
}

/// Only the tools of these names read or edit files.
pub proof fn files_are_read_and_edited_by_their_tools(name: Seq<char>)
    ensures
        reads(name) <==> name == "Read"@ || name == "read"@,
        edits(name) <==> name == "Edit"@ || name == "edit"@,
{
}

/// A model that edits a file which exists and was not read is told to read that file.
pub proof fn unread_files_are_named(run: RunView, u: UseView, outcome: Outcome, path: Seq<char>)
    requires
        u.name == "Edit"@ || u.name == "edit"@,
        !outcome.is_error,
        u.input is Object,
        json::holds(u.input->Object_0, "file_path"@, json::JsonView::Str(path)),
        !run.files_read.contains(path),
    ensures
        run.guarded(u, outcome, true).is_error,
        ("You must Read '"@ + path + "' before editing it."@).is_prefix_of(
            run.guarded(u, outcome, true).content,
        ),
        run.settled(u, outcome, true).files_read == run.files_read,
{
    lemma_reads_are_not_edits(u.name);
    reveal_strlit("' before editing it. Read the file first to understand its current contents.");
    reveal_strlit("' before editing it.");
    let long = "' before editing it. Read the file first to understand its current contents."@;
    let short = "' before editing it."@;
    assert(long.subrange(0, short.len() as int) =~= short);
    let content = run.guarded(u, outcome, true).content;
    let start = "You must Read '"@ + path + short;
    assert(content =~= "You must Read '"@ + path + long);
    assert(content.subrange(0, start.len() as int) =~= "You must Read '"@ + path + long.subrange(
        0,
        short.len() as int,
    ));
}

/// A failure says how often its tool has failed since its last success, and how many of
/// three attempts remain.
pub proof fn failures_say_what_remains(run: RunView, u: UseView, content: Seq<char>, exists_now: bool)
    ensures
        ({
            let before = if run.tool_errors.contains_key(u.name) {
                run.tool_errors[u.name] as int
            } else {
                0
            };
            let left = if before < 3 {
                2 - before
            } else {
                0
            };
            before < u32::MAX ==> run.settled_outcome(
                u,
                Outcome { content, is_error: true },
                exists_now,
            ) == (Outcome {
                content: content + "\n\n[Tool '"@ + u.name + "' failed "@ + text::decimal(
                    (before + 1) as nat,
                ) + " time(s). "@ + text::decimal(
                    if left > 0 {
                        left as nat
                    } else {
                        0
                    },
                ) + " attempts remaining. Analyze the error and try a different approach.]"@,
                is_error: true,
            })
        }),
{
}

/// A model that repeats itself is told so behind the results, and once.
pub proof fn repetition_is_told_behind_the_results(run: RunView)
    requires
        in_doom_loop(run.calls),
    ensures
        !run.doom_loop_warned ==> run.tools_done().messages.len() == run.messages.len() + 2
            && run.tools_done().messages.last() == types::MessageView::plain(
            Role::User,
            DOOM_LOOP_NUDGE@,
        ) && run.tools_done().doom_loop_warned,
        run.doom_loop_warned ==> run.tools_done().messages.len() == run.messages.len() + 1,
{
}

/// Observers are told of every event but of requests, of the start of responses and of the
/// status.
pub proof fn observers_are_told_of_events(e: Announced)
    ensures
        observed(e) <==> !(e is ModelRequestStart) && !(e is ModelResponseStart) && !(e is Status),
{
}

/// A request is made again after a failure that may pass, up to five times in a turn, and
/// so is one whose response failed before it started; every turn starts the count anew.
pub proof fn requests_are_repeated_in_their_turn(
    run: RunView,
    error: FailView,
    message: Seq<char>,
    kind: types::StreamErrorKind,
)
    requires
        run.turn < run.settings.max_turns,
    ensures
        run.retries(error) <==> error.retryable() && run.retry_count < 5,
        run.acc.message_id is None && kind_error(kind, message).retryable() && run.retry_count < 5
            ==> ({
            let e = types::EventView::Error { message, kind };
            &&& run.stream_step(e).work == (WorkView::Backoff {
                retry: (run.retry_count + 1) as u32,
            })
            &&& run.streamed(e).retry_count == run.retry_count + 1
            &&& run.streamed(e).messages == run.messages
        }),
        run.turned(false).retry_count == 0,
        run.turned(false).calls == run.calls,
        run.turned(false).usage == run.usage,
{
}

/// The work of a step shows all that is to be done: a request as it stands, and every call
/// in its order.
pub proof fn work_shows_what_is_to_be_done(work: Work)
    ensures
        work matches Work::Complete(request) ==> work@ == WorkView::Complete(request@),
        work matches Work::RunTools(uses) ==> work@ is RunTools && (work@->RunTools_0).len()
            == uses@.len() && (forall|i: int|
            0 <= i < uses@.len() ==> (#[trigger] (work@->RunTools_0)[i]).id == uses@[i].id@
                && (work@->RunTools_0)[i].name == uses@[i].name@ && (work@->RunTools_0)[i].input
                == uses@[i].input@),
        work matches Work::Fail(e) ==> work@ == WorkView::Fail(fail_view(e)),
        work is BeginTurn <==> work@ is BeginTurn,
        work is Finish <==> work@ is Finish,
        work is Compact <==> work@ is Compact,
        work is ReadStream <==> work@ is ReadStream,
{
}

/// A reminder of open tasks says how many there are.
pub proof fn reminders_say_how_many_tasks_are_open(n: nat)
    ensures
        ({
            let start = "\n\n[system reminder: You have "@ + text::decimal(n) + " incomplete task"@
                + (if n == 1 {
                Seq::<char>::empty()
            } else {
                seq!['s']
            });
            start.is_prefix_of(todo_nudge(n))
        }),
{
    reveal_strlit("");
    reveal_strlit("s");
    assert(""@ =~= Seq::<char>::empty());
    assert("s"@ =~= seq!['s']);
    let start = "\n\n[system reminder: You have "@ + text::decimal(n) + " incomplete task"@ + (
    if n == 1 {
        Seq::<char>::empty()
    } else {
        seq!['s']
    });
    assert(todo_nudge(n).subrange(0, start.len() as int) =~= start);
}

/// What the model is told of failed tests, and what is announced, counts the attempts out of
/// four.
pub proof fn attempts_at_tests_are_counted(attempt: nat, output: Seq<char>)
    ensures
        ("[system] Verification FAILED (attempt "@ + text::decimal(attempt) + "/"@ + text::decimal(
            4,
        ) + ")."@).is_prefix_of(failed_tests_nudge(attempt, output)),
        retry_status(attempt) == "Benchmark: retry "@ + text::decimal(attempt) + "/"@
            + text::decimal(4),
        output.len() > 3000 ==> at_most(output, 3000) == output.take(3000),
{
    reveal_strlit(").\n\nOutput:\n```\n");
    reveal_strlit(").");
    let long = ").\n\nOutput:\n```\n"@;
    assert(long.subrange(0, 2) =~= ")."@);
    let head = "[system] Verification FAILED (attempt "@ + text::decimal(attempt) + "/"@
        + text::decimal(4);
    let start = head + ")."@;
    let t = failed_tests_nudge(attempt, output);
    assert(t.subrange(0, start.len() as int) =~= head + long.subrange(0, 2));
}

/// Whatever sends a finished model on is announced, but for the nudge to read more.
pub proof fn nudges_are_announced(run: RunView)
    ensures
        run.needs_check() ==> run.finished_turn().1.events == seq![
            Announced::Status("Nudging agent to verify before completion"@),
        ],
        !run.needs_check() && run.tests_decide() && benchmark::verdict(run.calls) is TestsNotRun
            && run.benchmark_retries == 0 ==> run.finished_turn().1.events == seq![
            Announced::Status("Benchmark: nudge to run instruction's test command"@),
        ],
        run.warns() ==> run.tools_step().events == seq![
            Announced::Status("Doom loop detected — forcing new approach"@),
        ],
{
}

/// A run starts with its prompt as the last message and its first turn, or with the history
/// of its session where it has one to load.
pub proof fn runs_start_with_their_prompt(
    settings: RunSettings,
    prompt: &str,
    messages: Vec<Message>,
    usage: Usage,
    r: (AgentRun, Step),
)
    requires
        call_ensures(AgentRun::start, (settings, prompt, messages, usage), r),
    ensures
        messages@.len() == 0 && settings.has_memory && settings.session_id is Some
            ==> r.1@.work == (WorkView::LoadHistory { session_id: settings.session_id->0@ })
            && r.0@.messages.len() == 0,
        messages@.len() > 0 || !settings.has_memory || settings.session_id is None
            ==> r.1@.work is BeginTurn && r.0@.messages == types::messages_view(messages@).push(
            types::MessageView::plain(Role::User, expanded(prompt@)),
        ),
        r.1@.events.len() == 0,
        r.0@.usage == usage,
        r.0@.prompt == prompt@,
{
}

/// A hook lets a call run with its input or with another one, or answers it with an error
/// that says why.
pub proof fn hooks_decide_about_calls(input: Json, other: Json, reason: String, r: ToolPlan)
    ensures
        call_ensures(plan_call, (HookAction::Continue, input), r) ==> r == ToolPlan::Execute(
            input,
        ),
        call_ensures(plan_call, (HookAction::ModifyInput(other), input), r) ==> r
            == ToolPlan::Execute(other),
        call_ensures(plan_call, (HookAction::Block(reason), input), r) ==> r is Answer
            && (r->Answer_0)@ == (Outcome {
            content: "Blocked by hook: "@ + reason@,
            is_error: true,
        }),
{
}

/// A call that is denied is answered with an error that says why, and any other one runs.
pub proof fn denied_calls_are_answered(
    decision: PermissionDecision,
    reason: String,
    r: Option<ToolResult>,
)
    ensures
        call_ensures(refused, (PermissionDecision::Deny(reason),), r) ==> r is Some && (r->0)@ == (
        Outcome { content: "Permission denied: "@ + reason@, is_error: true }),
        !(decision is Deny) && call_ensures(refused, (decision,), r) ==> r is None,
{
}

/// A tool that is found has the name that was looked for, and a call of one that is not
/// there is answered with an error that names it.
pub proof fn tools_are_found_by_their_names(
    names: &Vec<String>,
    name: &str,
    i: Option<usize>,
    r: ToolResult,
)
    ensures
        call_ensures(find_tool, (names, name), i) && i is Some ==> i->0 < names@.len()
            && names@[i->0 as int]@ == name@,
        call_ensures(unknown_tool, (name,), r) ==> r@ == (Outcome {
            content: "Unknown tool: "@ + name@,
            is_error: true,
        }),
{
}

/// What a run gives back is its last answer, with all that it spent, its stop reason, its
/// turns and its calls.
pub proof fn runs_give_back_what_they_did(run: AgentRun, r: agent::AgentOutput)
    requires
        call_ensures(AgentRun::into_output, (run,), r),
    ensures
        r.message@ == last_answer(run@.messages),
        r.usage == run.usage,
        r.stop_reason == run.last_stop_reason,
        r.turns == run.turn,
        r.tool_calls@.len() == run.tool_calls@.len(),
{
    assert(agent::records_view(r.tool_calls@).len() == r.tool_calls@.len());
    assert(run@.calls.len() == run.tool_calls@.len());
}

/// A turn that asks the provider offers exactly the tools that it was handed, in their
/// order, and asks with the conversation of the run.
pub proof fn turns_offer_their_tools(
    run: &mut AgentRun,
    incomplete: usize,
    tools: Vec<ToolDefinition>,
    r: Step,
    i: int,
)
    requires
        call_ensures(AgentRun::on_turn, (run, false, incomplete, tools), r),
        old(run).turn < old(run).settings.max_turns,
    ensures
        r.work is Complete,
        (r.work->Complete_0).tools@.len() == tools@.len(),
        0 <= i < tools@.len() ==> (r.work->Complete_0).tools@[i].name@ == tools@[i].name@
            && (r.work->Complete_0).tools@[i].description@ == tools@[i].description@
            && (r.work->Complete_0).tools@[i].input_schema@ == tools@[i].input_schema@,
        (r.work->Complete_0)@.messages == final(run)@.messages,
        (r.work->Complete_0).max_tokens == old(run).settings.max_tokens,
{
    turns_ask_with_the_tools_at_hand(
        old(run)@,
        false,
        incomplete as nat,
        types::tools_view(tools@),
    );
    let request = r.work->Complete_0;
    let step = old(run)@.turn_step(false, incomplete as nat, types::tools_view(tools@));
    assert(r@.work == step.work);
    assert(r.work@ == step.work);
    assert(request@.tools == types::tools_view(tools@));
    assert(request@.tools.len() == request.tools@.len());
    if 0 <= i < tools@.len() {
        assert(request@.tools[i] == request.tools@[i]@);
        assert(types::tools_view(tools@)[i] == tools@[i]@);
    }
}

/// A run that is blocked by a hook fails with the reason. Where it is not, the elapsed-turns
/// hook comes first where it is due, and else the turn ends.
pub proof fn hooks_may_block_a_run(
    run: &mut AgentRun,
    reason: String,
    blocked: Step,
    free: Step,
)
    ensures
        call_ensures(AgentRun::on_hooks, (run, Some(reason)), blocked) ==> blocked@.work
            == WorkView::Fail(FailView::Provider("Blocked by hook: "@ + reason@))
            && blocked@.events.len() == 0,
        call_ensures(AgentRun::on_hooks, (run, None), free) && agent::fires_at(
            old(run).turn,
            old(run).settings.turns_elapsed_cadence,
        ) ==> free@.work is TurnsElapsed,
        call_ensures(AgentRun::on_hooks, (run, None), free) && !agent::fires_at(
            old(run).turn,
            old(run).settings.turns_elapsed_cadence,
        ) ==> free@ == old(run)@.end_step(),
{
}

/// A result that is recorded is announced with the name and the id of its call.
pub proof fn recorded_results_are_announced(
    run: &mut AgentRun,
    u: ToolUse,
    result: ToolResult,
    compressed: &str,
    duration_nanos: u128,
    r: AgentEvent,
)
    requires
        call_ensures(AgentRun::record, (run, u, result, compressed, duration_nanos), r),
    ensures
        r@ == (Announced::ToolEnd {
            name: u.name@,
            id: u.id@,
            result: result@.content,
            is_error: result@.is_error,
            duration_nanos,
        }),
        final(run)@.results.len() == old(run)@.results.len() + 1,
        final(run)@.results.last() is ToolResult,
        final(run)@.results.last()->ToolResult_tool_use_id == u.id@,
{
}

/// A compaction that is not needed leaves the run alone; one that is puts the summary in
/// place of the old messages, and where there is none the messages are cut.
pub proof fn compactions_use_the_summary(
    run: &mut AgentRun,
    summary: String,
    keep: usize,
    r: Step,
)
    ensures
        call_ensures(AgentRun::on_compaction, (run, false, Some(summary), keep), r)
            ==> r@.work is BeginTurn && final(run)@ == old(run)@,
        call_ensures(AgentRun::on_compaction, (run, true, Some(summary), keep), r) && summary@.len()
            > 0 ==> r@.work is BeginTurn && final(run)@.messages.len() > 0
            && final(run)@.messages[0] == types::MessageView::plain(Role::User, summary@),
        call_ensures(AgentRun::on_compaction, (run, true, Some(summary), keep), r) && summary@.len()
            == 0 ==> r@.work is Snip && final(run)@ == old(run)@,
        call_ensures(AgentRun::on_compaction, (run, true, None, keep), r) ==> r@.work is Snip
            && final(run)@ == old(run)@,
{
}

/// A session that was saved is told of and ends the run; where it could not be saved the run
/// fails with the error.
pub proof fn saved_sessions_are_told_of(run: &mut AgentRun, e: CerseiError, ok: Step, failed: Step)
    requires
        old(run).settings.session_id is Some,
    ensures
        call_ensures(AgentRun::on_saved, (run, Ok(())), ok) ==> ok@.work is Finish && ok@.events
            == seq![Announced::SessionSaved { session_id: old(run).settings.session_id->0@ }],
        call_ensures(AgentRun::on_saved, (run, Err(e)), failed) ==> failed@.work == WorkView::Fail(
            fail_view(e),
        ),
{
}

/// Messages that were cut are the conversation from then on.
pub proof fn cut_messages_are_the_conversation(
    run: &mut AgentRun,
    messages: Vec<Message>,
    r: Step,
)
    requires
        call_ensures(AgentRun::on_snipped, (run, messages), r),
    ensures
        final(run)@.messages == types::messages_view(messages@),
        final(run)@.calls == old(run)@.calls,
        r@.work is BeginTurn,
{
}

} // verus!
