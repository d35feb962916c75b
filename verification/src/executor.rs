//! Running workflows.
//!
//! A run walks the graph from its entry. A *strand* is one line of the walk: a place
//! in the graph and the loops around it. It says what is to be done next outside (run
//! a step, evaluate a condition, walk branches or items) and takes in what came of
//! it. Branches and items are strands of their own.
//!
//! The output of a node is remembered, so a node that was run is not run again: that
//! is also how a suspended run goes on, from a copy of what it remembered. A loop
//! forgets the nodes of its body before each turn. Of the loops that a run is suspended
//! in it is remembered how far they had come, so they go on in the turn they stopped in.

use crate::json;
use crate::json::{Json, JsonObject};
use crate::memo;
use crate::memo::{LoopProgress, RunStatus, StepResult};
use crate::runner;
use crate::text;
use crate::types;
use crate::types::CerseiError;
use crate::wire;
use crate::workflow;
use crate::workflow::{
    Condition, EdgeKind, JoinStrategy, LoopMode, MapSpec, NodeKind, Workflow,
};
use dashmap::DashMap;
use vstd::prelude::*;
use vstd::string::*;

verus! {

/// How often a loop runs its body at most.
pub const MAX_LOOP_ITERS: u32 = 10_000;

// ─── What a run holds ────────────────────────────────────────────────────────

/// Where a run was suspended, and what it waits for.
#[derive(Debug, PartialEq)]
pub struct SuspendPoint {
    pub node_id: String,
    pub resume_schema: Json,
    pub payload: Json,
}

#[verifier::ext_equal]
pub ghost struct SuspendView {
    pub node_id: Seq<char>,
    pub resume_schema: json::JsonView,
    pub payload: json::JsonView,
}

impl View for SuspendPoint {
    type V = SuspendView;

    open spec fn view(&self) -> SuspendView {
        SuspendView {
            node_id: self.node_id@,
            resume_schema: self.resume_schema@,
            payload: self.payload@,
        }
    }
}

/// The view of a point that may be missing.
pub open spec fn suspend_opt(s: Option<SuspendPoint>) -> Option<SuspendView> {
    match s {
        Some(p) => Some(p@),
        None => None,
    }
}

/// What the strands of a run share.
pub struct RunCtx {
    pub run_id: String,
    pub input: Json,
    pub outputs: DashMap<String, Json>,
    pub results: DashMap<String, StepResult>,
    /// How far the loops have come that are stopped and were not entered again.
    pub loops: Vec<(String, LoopProgress)>,
    /// The node that is resumed, and the data for it.
    pub resume: Option<(String, Json)>,
    /// Set when a step suspends: nothing is begun after that.
    pub suspend: Option<SuspendPoint>,
}

#[verifier::ext_equal]
pub ghost struct CtxView {
    pub run_id: Seq<char>,
    pub input: json::JsonView,
    pub outputs: Map<Seq<char>, json::JsonView>,
    pub results: Map<Seq<char>, memo::StepView>,
    pub loops: Map<Seq<char>, memo::ProgressView>,
    pub resume: Option<(Seq<char>, json::JsonView)>,
    pub suspend: Option<SuspendView>,
}

impl View for RunCtx {
    type V = CtxView;

    open spec fn view(&self) -> CtxView {
        CtxView {
            run_id: self.run_id@,
            input: self.input@,
            outputs: memo::outputs_held(self.outputs),
            results: memo::results_held(self.results),
            loops: memo::progress_view(self.loops@),
            resume: match self.resume {
                Some(r) => Some((r.0@, r.1@)),
                None => None,
            },
            suspend: suspend_opt(self.suspend),
        }
    }
}

impl CtxView {
    /// With the output of a node.
    pub open spec fn holding(self, node: Seq<char>, output: json::JsonView) -> CtxView {
        CtxView { outputs: self.outputs.insert(node, output), ..self }
    }

    /// With the result of a node.
    pub open spec fn reporting(self, node: Seq<char>, result: memo::StepView) -> CtxView {
        CtxView { results: self.results.insert(node, result), ..self }
    }

    /// With how far a loop has come.
    pub open spec fn pausing(self, node: Seq<char>, progress: memo::ProgressView) -> CtxView {
        CtxView { loops: self.loops.insert(node, progress), ..self }
    }

    /// With a loop that is not stopped any more.
    pub open spec fn past(self, node: Seq<char>) -> CtxView {
        CtxView { loops: self.loops.remove(node), ..self }
    }

    /// The values before the item that a loop over items stopped at, where it did and
    /// there is such an item.
    pub open spec fn stopped_at(self, node: Seq<char>, items: Seq<json::JsonView>) -> Option<
        Seq<json::JsonView>,
    > {
        if self.loops.contains_key(node) {
            match self.loops[node] {
                memo::ProgressView::Each { values } if values.len() < items.len() => Some(values),
                _ => None,
            }
        } else {
            None
        }
    }

    /// The turns of a loop with a condition before the one that it stopped in, and what
    /// that one began with, where it stopped in a turn that it may make.
    pub open spec fn stopped_after(self, node: Seq<char>) -> Option<(u32, json::JsonView)> {
        if self.loops.contains_key(node) {
            match self.loops[node] {
                memo::ProgressView::Turns { turns, acc } if turns < MAX_LOOP_ITERS => Some(
                    (turns, acc),
                ),
                _ => None,
            }
        } else {
            None
        }
    }

    /// Whether a node is the one that is resumed.
    pub open spec fn resumes(self, node: Seq<char>) -> bool {
        self.resume matches Some(r) && r.0 == node
    }

    /// Whether a step is to be resumed that has not run yet.
    pub open spec fn awaiting(self) -> bool {
        self.resume matches Some(r) && !self.results.contains_key(r.0)
    }

    /// Whether the step that is to be resumed, and has not run yet, is among nodes.
    pub open spec fn awaits_in(self, nodes: Set<Seq<char>>) -> bool {
        self.awaiting() && nodes.contains((self.resume->0).0)
    }
}

/// What a walk comes to.
#[derive(Debug, PartialEq)]
pub enum Outcome {
    Value(Json),
    Suspended,
    Failed(CerseiError),
}

#[verifier::ext_equal]
pub ghost enum OutcomeView {
    Value(json::JsonView),
    Suspended,
    Failed(runner::FailView),
}

impl View for Outcome {
    type V = OutcomeView;

    open spec fn view(&self) -> OutcomeView {
        match self {
            Outcome::Value(v) => OutcomeView::Value(v@),
            Outcome::Suspended => OutcomeView::Suspended,
            Outcome::Failed(e) => OutcomeView::Failed(runner::fail_view(*e)),
        }
    }
}

/// The views of a list of outcomes.
pub open spec fn outcomes_view(s: Seq<Outcome>) -> Seq<OutcomeView> {
    Seq::new(s.len(), |i: int| s[i]@)
}

/// What a run tells its observers.
#[derive(Debug, PartialEq)]
pub enum WorkflowEvent {
    WorkflowStarted { run_id: String },
    StepStarted { node_id: String, step_id: String, input: Json },
    StepCompleted { node_id: String, output: Json, duration_ms: u64 },
    StepSuspended { node_id: String, resume_schema: Json },
    StepFailed { node_id: String, error: String },
    BranchTaken { node_id: String, edge_to: String },
    LoopIteration { node_id: String, iteration: u32 },
}

#[verifier::ext_equal]
pub ghost enum EventView {
    WorkflowStarted { run_id: Seq<char> },
    StepStarted { node_id: Seq<char>, step_id: Seq<char>, input: json::JsonView },
    StepCompleted { node_id: Seq<char>, output: json::JsonView, duration_ms: u64 },
    StepSuspended { node_id: Seq<char>, resume_schema: json::JsonView },
    StepFailed { node_id: Seq<char>, error: Seq<char> },
    BranchTaken { node_id: Seq<char>, edge_to: Seq<char> },
    LoopIteration { node_id: Seq<char>, iteration: u32 },
}

impl View for WorkflowEvent {
    type V = EventView;

    open spec fn view(&self) -> EventView {
        match self {
            WorkflowEvent::WorkflowStarted { run_id } => EventView::WorkflowStarted {
                run_id: run_id@,
            },
            WorkflowEvent::StepStarted { node_id, step_id, input } => EventView::StepStarted {
                node_id: node_id@,
                step_id: step_id@,
                input: input@,
            },
            WorkflowEvent::StepCompleted { node_id, output, duration_ms } =>
                EventView::StepCompleted {
                node_id: node_id@,
                output: output@,
                duration_ms: *duration_ms,
            },
            WorkflowEvent::StepSuspended { node_id, resume_schema } => EventView::StepSuspended {
                node_id: node_id@,
                resume_schema: resume_schema@,
            },
            WorkflowEvent::StepFailed { node_id, error } => EventView::StepFailed {
                node_id: node_id@,
                error: error@,
            },
            WorkflowEvent::BranchTaken { node_id, edge_to } => EventView::BranchTaken {
                node_id: node_id@,
                edge_to: edge_to@,
            },
            WorkflowEvent::LoopIteration { node_id, iteration } => EventView::LoopIteration {
                node_id: node_id@,
                iteration: *iteration,
            },
        }
    }
}

/// The view of an event that may be missing.
pub open spec fn event_opt(e: Option<WorkflowEvent>) -> Option<EventView> {
    match e {
        Some(e) => Some(e@),
        None => None,
    }
}

// ─── Strands ─────────────────────────────────────────────────────────────────

/// Where a strand is.
#[derive(Debug, PartialEq)]
pub enum Place {
    /// About to enter a node.
    At { node: String, input: Json, stop_at: Option<String> },
    /// Waiting for a step.
    Running { node: String, stop_at: Option<String> },
    /// Waiting for the condition of an arm.
    Arm { node: String, input: Json, stop_at: Option<String>, edge: usize },
    /// Waiting for the condition of the innermost loop.
    Turn { acc: Json },
    /// Waiting for branches.
    Forked { join: Option<String>, strategy: JoinStrategy, stop_at: Option<String> },
    /// Waiting for items that are walked at the same time.
    Spread {
        node: String,
        stop_at: Option<String>,
        slots: Vec<Option<Json>>,
        suspended: Option<SuspendPoint>,
    },
    /// Through with what is inside the innermost loop, or with all.
    Ended(Outcome),
}

#[verifier::ext_equal]
pub ghost enum PlaceView {
    At { node: Seq<char>, input: json::JsonView, stop_at: Option<Seq<char>> },
    Running { node: Seq<char>, stop_at: Option<Seq<char>> },
    Arm { node: Seq<char>, input: json::JsonView, stop_at: Option<Seq<char>>, edge: int },
    Turn { acc: json::JsonView },
    Forked { join: Option<Seq<char>>, strategy: JoinStrategy, stop_at: Option<Seq<char>> },
    Spread {
        node: Seq<char>,
        stop_at: Option<Seq<char>>,
        slots: Seq<Option<json::JsonView>>,
        suspended: Option<SuspendView>,
    },
    Ended(OutcomeView),
}

/// The views of values that may be missing.
pub open spec fn slots_view(s: Seq<Option<Json>>) -> Seq<Option<json::JsonView>> {
    Seq::new(s.len(), |i: int| memo::json_opt(s[i]))
}

impl View for Place {
    type V = PlaceView;

    open spec fn view(&self) -> PlaceView {
        match self {
            Place::At { node, input, stop_at } => PlaceView::At {
                node: node@,
                input: input@,
                stop_at: types::opt_view(*stop_at),
            },
            Place::Running { node, stop_at } => PlaceView::Running {
                node: node@,
                stop_at: types::opt_view(*stop_at),
            },
            Place::Arm { node, input, stop_at, edge } => PlaceView::Arm {
                node: node@,
                input: input@,
                stop_at: types::opt_view(*stop_at),
                edge: *edge as int,
            },
            Place::Turn { acc } => PlaceView::Turn { acc: acc@ },
            Place::Forked { join, strategy, stop_at } => PlaceView::Forked {
                join: types::opt_view(*join),
                strategy: *strategy,
                stop_at: types::opt_view(*stop_at),
            },
            Place::Spread { node, stop_at, slots, suspended } => PlaceView::Spread {
                node: node@,
                stop_at: types::opt_view(*stop_at),
                slots: slots_view(slots@),
                suspended: suspend_opt(*suspended),
            },
            Place::Ended(o) => PlaceView::Ended(o@),
        }
    }
}

/// A loop around a place.
#[derive(Debug, PartialEq)]
pub enum Frame {
    /// A loop over items, one after another.
    Each {
        node: String,
        body: String,
        stop_at: Option<String>,
        items: Vec<Json>,
        next: usize,
        collected: Vec<Json>,
    },
    /// A loop with a condition after its body: it goes on while the condition is
    /// `going`.
    Do {
        node: String,
        body: String,
        going: bool,
        condition: Option<Condition>,
        stop_at: Option<String>,
        iter: u32,
        /// What the turn began with.
        begun: Json,
    },
}

#[verifier::ext_equal]
pub ghost enum FrameView {
    Each {
        node: Seq<char>,
        body: Seq<char>,
        stop_at: Option<Seq<char>>,
        items: Seq<json::JsonView>,
        next: int,
        collected: Seq<json::JsonView>,
    },
    Do {
        node: Seq<char>,
        body: Seq<char>,
        going: bool,
        condition: Option<json::JsonView>,
        stop_at: Option<Seq<char>>,
        iter: u32,
        begun: json::JsonView,
    },
}

impl View for Frame {
    type V = FrameView;

    open spec fn view(&self) -> FrameView {
        match self {
            Frame::Each { node, body, stop_at, items, next, collected } => FrameView::Each {
                node: node@,
                body: body@,
                stop_at: types::opt_view(*stop_at),
                items: json::items_view(items@),
                next: *next as int,
                collected: json::items_view(collected@),
            },
            Frame::Do { node, body, going, condition, stop_at, iter, begun } => FrameView::Do {
                node: node@,
                body: body@,
                going: *going,
                condition: workflow::condition_opt(*condition),
                stop_at: types::opt_view(*stop_at),
                iter: *iter,
                begun: begun@,
            },
        }
    }
}

/// The views of a list of loops.
pub open spec fn frames_view(s: Seq<Frame>) -> Seq<FrameView> {
    Seq::new(s.len(), |i: int| s[i]@)
}

/// One line of a walk: a place, and the loops around it from the outermost on.
#[derive(Debug, PartialEq)]
pub struct Strand {
    pub place: Place,
    pub frames: Vec<Frame>,
}

#[verifier::ext_equal]
pub ghost struct StrandView {
    pub place: PlaceView,
    pub frames: Seq<FrameView>,
}

impl View for Strand {
    type V = StrandView;

    open spec fn view(&self) -> StrandView {
        StrandView { place: self.place@, frames: frames_view(self.frames@) }
    }
}

/// What is to be done outside.
#[derive(Debug, PartialEq)]
pub enum Action {
    /// Nothing: the strand can go on.
    Go,
    /// Run a step.
    Run { node: String, step_id: String, input: Json, resume_data: Option<Json> },
    /// Evaluate a condition.
    Ask { condition: Condition, scope: Json },
    /// Walk from each of these nodes up to the join.
    Fork { targets: Vec<String>, input: Json, join: Option<String> },
    /// Walk the body on each item, on at most `limit` of them at a time.
    Spread { items: Vec<Json>, node: String, body: String, limit: usize },
    /// Nothing any more.
    End,
}

#[verifier::ext_equal]
pub ghost enum ActionView {
    Go,
    Run {
        node: Seq<char>,
        step_id: Seq<char>,
        input: json::JsonView,
        resume_data: Option<json::JsonView>,
    },
    Ask { condition: json::JsonView, scope: json::JsonView },
    Fork { targets: Seq<Seq<char>>, input: json::JsonView, join: Option<Seq<char>> },
    Spread { items: Seq<json::JsonView>, node: Seq<char>, body: Seq<char>, limit: usize },
    End,
}

impl View for Action {
    type V = ActionView;

    open spec fn view(&self) -> ActionView {
        match self {
            Action::Go => ActionView::Go,
            Action::Run { node, step_id, input, resume_data } => ActionView::Run {
                node: node@,
                step_id: step_id@,
                input: input@,
                resume_data: memo::json_opt(*resume_data),
            },
            Action::Ask { condition, scope } => ActionView::Ask {
                condition: condition@,
                scope: scope@,
            },
            Action::Fork { targets, input, join } => ActionView::Fork {
                targets: text::views(targets@),
                input: input@,
                join: types::opt_view(*join),
            },
            Action::Spread { items, node, body, limit } => ActionView::Spread {
                items: json::items_view(items@),
                node: node@,
                body: body@,
                limit: *limit,
            },
            Action::End => ActionView::End,
        }
    }
}

/// What a strand does: where it is then, what the run holds then, what is to be done
/// outside and what observers are told.
#[verifier::ext_equal]
pub ghost struct Move {
    pub place: PlaceView,
    pub frames: Seq<FrameView>,
    pub ctx: CtxView,
    pub action: ActionView,
    pub event: Option<EventView>,
}

// ─── Values ──────────────────────────────────────────────────────────────────

/// The configuration of a step with its input: members of the input stand before
/// members of the configuration, and an input that is no object stands alone.
pub open spec fn merged(config: json::JsonView, input: json::JsonView) -> json::JsonView {
    match (config, input) {
        (json::JsonView::Object(c), json::JsonView::Object(i)) => json::JsonView::Object(
            c.union_prefer_right(i),
        ),
        _ => input,
    }
}

/// A pointer starts with a slash.
pub open spec fn rooted(path: Seq<char>) -> Seq<char> {
    if path.len() > 0 && path[0] == '/' {
        path
    } else {
        "/"@ + path
    }
}

/// A pointer that starts with a slash is left as it is, so to do it twice is to do it
/// once.
pub proof fn rooting_is_idempotent(path: Seq<char>)
    ensures
        rooted(rooted(path)) == rooted(path),
        rooted(path).len() > 0 && rooted(path)[0] == '/',
{
    reveal_strlit("/");
}

/// What conditions and pointers see of a run.
pub open spec fn scope_of(ctx: CtxView, state: json::JsonView, current: json::JsonView) -> json::JsonView {
    json::JsonView::Object(
        wire::with(
            wire::with(
                wire::with(
                    wire::with(wire::nothing(), "input"@, ctx.input),
                    "state"@,
                    state,
                ),
                "steps"@,
                json::JsonView::Object(ctx.outputs),
            ),
            "current"@,
            current,
        ),
    )
}

/// What pointers find of a run: its input, the state, what is at hand, and the output of
/// each node that has one.
pub proof fn pointers_find_the_run(
    ctx: CtxView,
    state: json::JsonView,
    current: json::JsonView,
    node: Seq<char>,
)
    requires
        json::plain(node),
    ensures
        json::json_pointed(scope_of(ctx, state, current), "/input"@) == Some(ctx.input),
        json::json_pointed(scope_of(ctx, state, current), "/state"@) == Some(state),
        json::json_pointed(scope_of(ctx, state, current), "/current"@) == Some(current),
        json::json_pointed(scope_of(ctx, state, current), "/steps/"@ + node)
            == if ctx.outputs.contains_key(node) {
            Some(ctx.outputs[node])
        } else {
            None
        },
{
    reveal_strlit("/input");
    reveal_strlit("/state");
    reveal_strlit("/current");
    reveal_strlit("/steps/");
    reveal_strlit("input");
    reveal_strlit("state");
    reveal_strlit("current");
    reveal_strlit("steps");
    let members = scope_of(ctx, state, current)->Object_0;
    assert("input"@[0] != "state"@[0] && "input"@[0] != "current"@[0] && "input"@[0]
        != "steps"@[0]);
    assert("state"@[2] != "steps"@[2] && "current"@[0] != "state"@[0] && "current"@[0]
        != "steps"@[0]);
    assert("/input"@ =~= seq!['/'] + "input"@);
    assert("/state"@ =~= seq!['/'] + "state"@);
    assert("/current"@ =~= seq!['/'] + "current"@);
    json::a_pointer_finds_a_member(members, "input"@);
    json::a_pointer_finds_a_member(members, "state"@);
    json::a_pointer_finds_a_member(members, "current"@);
    assert("/steps/"@ + node =~= seq!['/'] + "steps"@ + seq!['/'] + node);
    json::a_pointer_goes_on_behind_a_member(scope_of(ctx, state, current), "steps"@, node);
    json::a_pointer_finds_a_member(ctx.outputs, node);
}

/// The value that a pointer points to; null where there is none.
pub open spec fn pointed_or_null(scope: json::JsonView, path: Seq<char>) -> json::JsonView {
    match json::json_pointed(scope, rooted(path)) {
        Some(v) => v,
        None => json::JsonView::Null,
    }
}

/// The members of a reshaped value.
pub open spec fn reshaped(scope: json::JsonView, fields: Seq<(Seq<char>, Seq<char>)>) -> Map<
    Seq<char>,
    json::JsonView,
>
    decreases fields.len(),
{
    if fields.len() == 0 {
        wire::nothing()
    } else {
        reshaped(scope, fields.drop_last()).insert(
            fields.last().0,
            pointed_or_null(scope, fields.last().1),
        )
    }
}

proof fn lemma_union_step(
    base: Map<Seq<char>, json::JsonView>,
    more: Map<Seq<char>, json::JsonView>,
    key: Seq<char>,
    value: json::JsonView,
)
    ensures
        base.union_prefer_right(more).insert(key, value) == base.union_prefer_right(
            more.insert(key, value),
        ),
{
    assert(base.union_prefer_right(more).insert(key, value) =~= base.union_prefer_right(
        more.insert(key, value),
    ));
}

/// The configuration of a step with its input.
pub fn merge_config(config: &Json, input: Json) -> (r: Json)
    ensures
        r@ == merged(config@, input@),
{
    if let Json::Object(c) = config {
        if let Json::Object(i) = &input {
            let mut out = JsonObject::new();
            let mut k: usize = 0;
            let ghost base = c@;
            let ghost all = c.entries@;
            assert(json::entries_view(all.take(0)) =~= Map::<Seq<char>, json::JsonView>::empty());
            while k < c.entries.len()
                invariant
                    k <= c.entries@.len(),
                    all == c.entries@,
                    out@ == json::entries_view(all.take(k as int)),
                decreases c.entries@.len() - k,
            {
                assert(all.take(k + 1).drop_last() =~= all.take(k as int));
                assert(all.take(k + 1).last() == all[k as int]);
                let e = &c.entries[k];
                out.set(e.0.as_str(), e.1.copy());
                k = k + 1;
            }
            assert(all.take(k as int) =~= all);
            let ghost over = i.entries@;
            let mut n: usize = 0;
            assert(base.union_prefer_right(json::entries_view(over.take(0))) =~= base);
            while n < i.entries.len()
                invariant
                    n <= i.entries@.len(),
                    over == i.entries@,
                    out@ == base.union_prefer_right(json::entries_view(over.take(n as int))),
                decreases i.entries@.len() - n,
            {
                assert(over.take(n + 1).drop_last() =~= over.take(n as int));
                assert(over.take(n + 1).last() == over[n as int]);
                let e = &i.entries[n];
                proof {
                    lemma_union_step(base, json::entries_view(over.take(n as int)), e.0@, e.1@);
                }
                out.set(e.0.as_str(), e.1.copy());
                n = n + 1;
            }
            assert(over.take(n as int) =~= over);
            return Json::Object(out);
        }
    }
    input
}

/// A pointer with a slash before it.
pub fn normalize_ptr(path: &str) -> (r: String)
    ensures
        r@ == rooted(path@),
{
    let v = text::chars_of(path);
    if v.len() > 0 && v[0] == '/' {
        path.to_string()
    } else {
        text::cat("/", path)
    }
}

/// What conditions and pointers see of a run.
pub fn build_scope(ctx: &RunCtx, state: &Json, current: &Json) -> (r: Json)
    ensures
        r@ == scope_of(ctx@, state@, current@),
{
    let steps = Json::Object(JsonObject { entries: memo::outputs_list(&ctx.outputs) });
    assert(steps@ == json::JsonView::Object(ctx@.outputs));
    let mut o = JsonObject::new();
    o.set("input", ctx.input.copy());
    o.set("state", state.copy());
    o.set("steps", steps);
    o.set("current", current.copy());
    Json::Object(o)
}

/// The value that a mapping makes of what it sees.
pub fn reshape(scope: &Json, mapping: &MapSpec) -> (r: Json)
    ensures
        r@ == json::JsonView::Object(
            reshaped(scope@, workflow::fields_view(mapping.fields@)),
        ),
{
    let ghost fields = workflow::fields_view(mapping.fields@);
    let mut o = JsonObject::new();
    let mut i: usize = 0;
    while i < mapping.fields.len()
        invariant
            i <= mapping.fields@.len(),
            fields == workflow::fields_view(mapping.fields@),
            o@ == reshaped(scope@, fields.take(i as int)),
        decreases mapping.fields@.len() - i,
    {
        assert(fields.take(i + 1).drop_last() =~= fields.take(i as int));
        assert(fields.take(i + 1).last() == fields[i as int]);
        let f = &mapping.fields[i];
        let path = normalize_ptr(f.1.as_str());
        let value = match json::pointer(scope, path.as_str()) {
            Some(v) => v,
            None => Json::Null,
        };
        o.set(f.0.as_str(), value);
        i = i + 1;
    }
    assert(fields.take(i as int) =~= fields);
    Json::Object(o)
}

// ─── Moves ───────────────────────────────────────────────────────────────────

/// Where a strand is after a node gave its output: at the node that follows, unless
/// there is none or it is where to stop.
pub open spec fn proceeding(
    wf: Workflow,
    node: Seq<char>,
    output: json::JsonView,
    stop_at: Option<Seq<char>>,
) -> PlaceView {
    match wf.next_of(node) {
        Some(n) => if Some(n) != stop_at {
            PlaceView::At { node: n, input: output, stop_at }
        } else {
            PlaceView::Ended(OutcomeView::Value(output))
        },
        None => PlaceView::Ended(OutcomeView::Value(output)),
    }
}

/// The nodes of the body of a loop.
pub open spec fn body_nodes(wf: Workflow, body: Seq<char>, node: Seq<char>) -> Set<Seq<char>> {
    Set::new(|n: Seq<char>| workflow::reaches(wf.def@.edges, body, node, n))
}

/// Without what is remembered of the body of a loop.
pub open spec fn forgetting(wf: Workflow, ctx: CtxView, body: Seq<char>, node: Seq<char>) -> CtxView {
    CtxView {
        outputs: ctx.outputs.remove_keys(body_nodes(wf, body, node)),
        loops: ctx.loops.remove_keys(body_nodes(wf, body, node)),
        ..ctx
    }
}

/// The node of a loop and the first node of its body.
pub open spec fn loop_of(f: FrameView) -> (Seq<char>, Seq<char>) {
    match f {
        FrameView::Each { node, body, .. } => (node, body),
        FrameView::Do { node, body, .. } => (node, body),
    }
}

/// How far a loop has come in the turn that it is in.
pub open spec fn progress(f: FrameView) -> memo::ProgressView {
    match f {
        FrameView::Each { collected, .. } => memo::ProgressView::Each { values: collected },
        FrameView::Do { iter, begun, .. } => memo::ProgressView::Turns { turns: iter, acc: begun },
    }
}

/// The nodes of the branches of a fork.
pub open spec fn fork_nodes(wf: Workflow, targets: Seq<Seq<char>>, join: Seq<char>) -> Set<Seq<char>> {
    Set::new(
        |n: Seq<char>|
            exists|k: int|
                0 <= k < targets.len() && #[trigger] workflow::reaches(
                    wf.def@.edges,
                    targets[k],
                    join,
                    n,
                ),
    )
}

/// A move after which the strand can go on.
pub open spec fn going_to(place: PlaceView, frames: Seq<FrameView>, ctx: CtxView) -> Move {
    Move { place, frames, ctx, action: ActionView::Go, event: None }
}

/// The end of what is inside the innermost loop.
pub open spec fn ending(outcome: OutcomeView, frames: Seq<FrameView>, ctx: CtxView) -> Move {
    going_to(PlaceView::Ended(outcome), frames, ctx)
}

/// A node gave its output, which is remembered.
pub open spec fn giving(
    wf: Workflow,
    node: Seq<char>,
    output: json::JsonView,
    stop_at: Option<Seq<char>>,
    frames: Seq<FrameView>,
    ctx: CtxView,
) -> Move {
    going_to(proceeding(wf, node, output, stop_at), frames, ctx.holding(node, output))
}

/// A node is passed over: the walk goes on with the output that is remembered.
pub open spec fn recalled(
    wf: Workflow,
    node: Seq<char>,
    stop_at: Option<Seq<char>>,
    frames: Seq<FrameView>,
    ctx: CtxView,
) -> Move {
    going_to(proceeding(wf, node, ctx.outputs[node], stop_at), frames, ctx)
}

/// The next turn of a loop over items, or its output where none is left.
pub open spec fn each_turn(
    wf: Workflow,
    node: Seq<char>,
    body: Seq<char>,
    stop_at: Option<Seq<char>>,
    items: Seq<json::JsonView>,
    next: int,
    collected: Seq<json::JsonView>,
    outer: Seq<FrameView>,
    ctx: CtxView,
) -> Move {
    if next < items.len() {
        going_to(
            PlaceView::At { node: body, input: items[next], stop_at: Some(node) },
            outer.push(FrameView::Each { node, body, stop_at, items, next: next + 1, collected }),
            forgetting(wf, ctx, body, node),
        )
    } else {
        giving(wf, node, json::JsonView::Array(collected), stop_at, outer, ctx)
    }
}

/// The next turn of a loop with a condition, or its output where it stops.
pub open spec fn do_turn(
    wf: Workflow,
    node: Seq<char>,
    body: Seq<char>,
    going: bool,
    condition: Option<json::JsonView>,
    stop_at: Option<Seq<char>>,
    iter: u32,
    holds: bool,
    acc: json::JsonView,
    outer: Seq<FrameView>,
    ctx: CtxView,
) -> Move {
    if holds != going || iter >= MAX_LOOP_ITERS {
        giving(wf, node, acc, stop_at, outer, ctx)
    } else {
        going_to(
            PlaceView::At { node: body, input: acc, stop_at: Some(node) },
            outer.push(
                FrameView::Do { node, body, going, condition, stop_at, iter, begun: acc },
            ),
            forgetting(wf, ctx, body, node),
        )
    }
}

/// A branch looks at its arms from an edge on: the next condition is evaluated, and
/// where none is left the branch leads on as any other node.
pub open spec fn arm_turn(
    wf: Workflow,
    node: Seq<char>,
    input: json::JsonView,
    stop_at: Option<Seq<char>>,
    from: int,
    frames: Seq<FrameView>,
    ctx: CtxView,
    state: json::JsonView,
) -> Move {
    let edges = wf.def@.edges;
    let i = workflow::arm_position(edges, node, from);
    if i < edges.len() {
        Move {
            place: PlaceView::Arm { node, input, stop_at, edge: i },
            frames,
            ctx,
            action: ActionView::Ask {
                condition: edges[i].kind->When_0,
                scope: scope_of(ctx, state, input),
            },
            event: None,
        }
    } else {
        match wf.next_of(node) {
            Some(to) => arm_taken(node, to, input, stop_at, frames, ctx),
            None => ending(OutcomeView::Value(input), frames, ctx),
        }
    }
}

/// A branch takes an arm.
pub open spec fn arm_taken(
    node: Seq<char>,
    to: Seq<char>,
    input: json::JsonView,
    stop_at: Option<Seq<char>>,
    frames: Seq<FrameView>,
    ctx: CtxView,
) -> Move {
    Move {
        place: PlaceView::At { node: to, input, stop_at },
        frames,
        ctx,
        action: ActionView::Go,
        event: Some(EventView::BranchTaken { node_id: node, edge_to: to }),
    }
}

/// A step is entered: its output is taken where it is remembered, unless it is the
/// step that is resumed; else the step is run.
pub open spec fn step_entered(
    wf: Workflow,
    node: Seq<char>,
    step_id: Seq<char>,
    config: json::JsonView,
    input: json::JsonView,
    stop_at: Option<Seq<char>>,
    frames: Seq<FrameView>,
    ctx: CtxView,
) -> Move {
    if !ctx.resumes(node) && ctx.outputs.contains_key(node) {
        recalled(wf, node, stop_at, frames, ctx)
    } else if !wf.knows(step_id) {
        ending(
            OutcomeView::Failed(runner::FailView::Tool("unknown step: '"@ + step_id + "'"@)),
            frames,
            ctx,
        )
    } else {
        Move {
            place: PlaceView::Running { node, stop_at },
            frames,
            ctx,
            action: ActionView::Run {
                node,
                step_id,
                input: merged(config, input),
                resume_data: if ctx.resumes(node) {
                    Some((ctx.resume->0).1)
                } else {
                    None
                },
            },
            event: Some(
                EventView::StepStarted { node_id: node, step_id, input: merged(config, input) },
            ),
        }
    }
}

/// How a join settles its branches; where there is no join, as one that all must
/// succeed for.
pub open spec fn strategy_of(wf: Workflow, join: Option<Seq<char>>) -> JoinStrategy {
    match join {
        Some(j) => match wf.kind_of(j) {
            Some(workflow::KindView::Join { strategy }) => strategy,
            _ => JoinStrategy::AllOrFail,
        },
        None => JoinStrategy::AllOrFail,
    }
}

/// A fork is entered: it is passed over where the output of its join is remembered,
/// unless the step that is to be resumed is in one of its branches.
pub open spec fn fork_entered(
    wf: Workflow,
    node: Seq<char>,
    input: json::JsonView,
    stop_at: Option<Seq<char>>,
    frames: Seq<FrameView>,
    ctx: CtxView,
) -> Move {
    let targets = workflow::fork_targets(wf.def@.edges, node);
    let join = wf.join_of(targets);
    if join is Some && ctx.outputs.contains_key(join->0) && !ctx.awaits_in(
        fork_nodes(wf, targets, join->0),
    ) {
        recalled(wf, join->0, stop_at, frames, ctx)
    } else {
        Move {
            place: PlaceView::Forked { join, strategy: strategy_of(wf, join), stop_at },
            frames,
            ctx,
            action: ActionView::Fork { targets, input, join },
            event: None,
        }
    }
}

/// A node that computes its output at once is entered: the output is taken where it is
/// remembered.
pub open spec fn given(
    wf: Workflow,
    node: Seq<char>,
    output: json::JsonView,
    stop_at: Option<Seq<char>>,
    frames: Seq<FrameView>,
    ctx: CtxView,
) -> Move {
    if ctx.outputs.contains_key(node) {
        recalled(wf, node, stop_at, frames, ctx)
    } else {
        giving(wf, node, output, stop_at, frames, ctx)
    }
}

/// A loop is entered: its output is taken where it is remembered, unless the step that
/// is to be resumed is in its body; else it begins.
pub open spec fn loop_entered(
    wf: Workflow,
    node: Seq<char>,
    mode: LoopMode,
    body: Seq<char>,
    condition: Option<json::JsonView>,
    input: json::JsonView,
    stop_at: Option<Seq<char>>,
    frames: Seq<FrameView>,
    ctx: CtxView,
) -> Move {
    if ctx.outputs.contains_key(node) && !ctx.awaits_in(body_nodes(wf, body, node)) {
        recalled(wf, node, stop_at, frames, ctx)
    } else {
        loop_begun(wf, node, mode, body, condition, input, stop_at, frames, ctx)
    }
}

/// A loop begins: in the turn that it stopped in, where it did, and else in its first.
pub open spec fn loop_begun(
    wf: Workflow,
    node: Seq<char>,
    mode: LoopMode,
    body: Seq<char>,
    condition: Option<json::JsonView>,
    input: json::JsonView,
    stop_at: Option<Seq<char>>,
    frames: Seq<FrameView>,
    ctx: CtxView,
) -> Move {
    match mode {
        LoopMode::ForEach { concurrency } => match input {
            json::JsonView::Array(items) => if concurrency <= 1 {
                match ctx.stopped_at(node, items) {
                    Some(values) => going_to(
                        PlaceView::At {
                            node: body,
                            input: items[values.len() as int],
                            stop_at: Some(node),
                        },
                        frames.push(
                            FrameView::Each {
                                node,
                                body,
                                stop_at,
                                items,
                                next: (values.len() + 1) as int,
                                collected: values,
                            },
                        ),
                        ctx.past(node),
                    ),
                    None => each_turn(
                        wf,
                        node,
                        body,
                        stop_at,
                        items,
                        0,
                        Seq::empty(),
                        frames,
                        ctx.past(node),
                    ),
                }
            } else {
                Move {
                    place: PlaceView::Spread {
                        node,
                        stop_at,
                        slots: Seq::new(items.len(), |i: int| None),
                        suspended: None,
                    },
                    frames,
                    ctx: ctx.past(node),
                    action: ActionView::Spread { items, node, body, limit: concurrency },
                    event: None,
                }
            },
            _ => ending(
                OutcomeView::Failed(runner::FailView::Config("foreach input is not an array"@)),
                frames,
                ctx.past(node),
            ),
        },
        _ => {
            let going = mode is DoWhile;
            match ctx.stopped_after(node) {
                Some((turns, acc)) => going_to(
                    PlaceView::At { node: body, input: acc, stop_at: Some(node) },
                    frames.push(
                        FrameView::Do {
                            node,
                            body,
                            going,
                            condition,
                            stop_at,
                            iter: turns,
                            begun: acc,
                        },
                    ),
                    ctx.past(node),
                ),
                None => going_to(
                    PlaceView::At { node: body, input, stop_at: Some(node) },
                    frames.push(
                        FrameView::Do {
                            node,
                            body,
                            going,
                            condition,
                            stop_at,
                            iter: 0,
                            begun: input,
                        },
                    ),
                    forgetting(wf, ctx.past(node), body, node),
                ),
            }
        },
    }
}

/// A node is entered. Where to stop comes first; nothing is begun in a run that was
/// suspended.
pub open spec fn entered(
    wf: Workflow,
    node: Seq<char>,
    input: json::JsonView,
    stop_at: Option<Seq<char>>,
    frames: Seq<FrameView>,
    ctx: CtxView,
    state: json::JsonView,
) -> Move {
    if stop_at == Some(node) {
        ending(OutcomeView::Value(input), frames, ctx)
    } else if ctx.suspend is Some {
        ending(OutcomeView::Suspended, frames, ctx)
    } else {
        match wf.kind_of(node) {
            None => ending(
                OutcomeView::Failed(runner::FailView::Config("missing node '"@ + node + "'"@)),
                frames,
                ctx,
            ),
            Some(workflow::KindView::Step { step_id, config }) => step_entered(
                wf,
                node,
                step_id,
                config,
                input,
                stop_at,
                frames,
                ctx,
            ),
            Some(workflow::KindView::Reshape { fields }) => given(
                wf,
                node,
                json::JsonView::Object(reshaped(scope_of(ctx, state, input), fields)),
                stop_at,
                frames,
                ctx,
            ),
            Some(workflow::KindView::Parallel) => fork_entered(
                wf,
                node,
                input,
                stop_at,
                frames,
                ctx,
            ),
            Some(workflow::KindView::Join { .. }) => given(
                wf,
                node,
                input,
                stop_at,
                frames,
                ctx,
            ),
            Some(workflow::KindView::Branch) => arm_turn(
                wf,
                node,
                input,
                stop_at,
                0,
                frames,
                ctx,
                state,
            ),
            Some(workflow::KindView::Loop { mode, body, condition }) => loop_entered(
                wf,
                node,
                mode,
                body,
                condition,
                input,
                stop_at,
                frames,
                ctx,
            ),
        }
    }
}

/// What is inside the innermost loop has ended. A value is for the loop; anything else
/// ends the loop too. Where the run was suspended it is remembered how far the loop has
/// come.
pub open spec fn delivered(
    wf: Workflow,
    outcome: OutcomeView,
    frames: Seq<FrameView>,
    ctx: CtxView,
    state: json::JsonView,
) -> Move {
    if frames.len() == 0 {
        Move {
            place: PlaceView::Ended(outcome),
            frames,
            ctx,
            action: ActionView::End,
            event: None,
        }
    } else {
        let outer = frames.drop_last();
        match outcome {
            OutcomeView::Value(v) => match frames.last() {
                FrameView::Each { node, body, stop_at, items, next, collected } => each_turn(
                    wf,
                    node,
                    body,
                    stop_at,
                    items,
                    next,
                    collected.push(v),
                    outer,
                    ctx,
                ),
                FrameView::Do { node, body, going, condition, stop_at, iter, begun } => {
                    let turn = (iter + 1) as u32;
                    let told = Some(EventView::LoopIteration { node_id: node, iteration: turn });
                    match condition {
                        Some(c) => Move {
                            place: PlaceView::Turn { acc: v },
                            frames: outer.push(
                                FrameView::Do {
                                    node,
                                    body,
                                    going,
                                    condition,
                                    stop_at,
                                    iter: turn,
                                    begun,
                                },
                            ),
                            ctx,
                            action: ActionView::Ask {
                                condition: c,
                                scope: scope_of(ctx, state, v),
                            },
                            event: told,
                        },
                        None => Move {
                            event: told,
                            ..do_turn(
                                wf,
                                node,
                                body,
                                going,
                                condition,
                                stop_at,
                                turn,
                                false,
                                v,
                                outer,
                                ctx,
                            )
                        },
                    }
                },
            },
            OutcomeView::Suspended => ending(
                outcome,
                outer,
                ctx.pausing(loop_of(frames.last()).0, progress(frames.last())),
            ),
            OutcomeView::Failed(_) => ending(outcome, outer, ctx),
        }
    }
}

/// What branches come to together, in their order: the first that was suspended
/// suspends the whole, and the first that failed fails it where all must succeed.
pub open spec fn settled(results: Seq<OutcomeView>, strategy: JoinStrategy) -> OutcomeView
    decreases results.len(),
{
    if results.len() == 0 {
        OutcomeView::Value(json::JsonView::Array(Seq::empty()))
    } else {
        match settled(results.drop_last(), strategy) {
            OutcomeView::Value(json::JsonView::Array(values)) => match results.last() {
                OutcomeView::Value(v) => OutcomeView::Value(json::JsonView::Array(values.push(v))),
                OutcomeView::Suspended => OutcomeView::Suspended,
                OutcomeView::Failed(e) => match strategy {
                    JoinStrategy::AllOrFail => OutcomeView::Failed(e),
                    JoinStrategy::AllSettled => OutcomeView::Value(
                        json::JsonView::Array(values.push(json::JsonView::Null)),
                    ),
                },
            },
            other => other,
        }
    }
}

/// The values that there are, in their order.
pub open spec fn present(slots: Seq<Option<json::JsonView>>) -> Seq<json::JsonView>
    decreases slots.len(),
{
    if slots.len() == 0 {
        Seq::empty()
    } else {
        let before = present(slots.drop_last());
        match slots.last() {
            Some(v) => before.push(v),
            None => before,
        }
    }
}

/// A strand made a move.
pub open spec fn made(
    strand: StrandView,
    ctx: CtxView,
    action: ActionView,
    event: Option<EventView>,
    m: Move,
) -> bool {
    &&& strand.place == m.place
    &&& strand.frames == m.frames
    &&& ctx == m.ctx
    &&& action == m.action
    &&& event == m.event
}

/// A strand got somewhere by a move, whatever it does next.
pub open spec fn arrived(strand: StrandView, ctx: CtxView, m: Move) -> bool {
    &&& strand.place == m.place
    &&& strand.frames == m.frames
    &&& ctx == m.ctx
}

/// A loop as it can be: there is a value for each item before the one that is walked,
/// and no more turns were made than there may be. While the condition is evaluated the
/// last turn may be made.
pub open spec fn frame_ok(f: FrameView, turning: bool) -> bool {
    match f {
        FrameView::Each { items, next, collected, .. } => collected.len() + 1 == next
            && next <= items.len(),
        FrameView::Do { iter, .. } => iter < MAX_LOOP_ITERS || (turning && iter
            == MAX_LOOP_ITERS),
    }
}

impl StrandView {
    /// A strand as it can be in a run of a workflow.
    pub open spec fn valid(self, wf: Workflow) -> bool {
        &&& forall|i: int|
            0 <= i < self.frames.len() ==> frame_ok(
                #[trigger] self.frames[i],
                self.place is Turn && i == self.frames.len() - 1,
            )
        &&& self.place is Turn ==> self.frames.len() > 0 && self.frames.last() is Do
        &&& self.place matches PlaceView::Arm { edge, .. } ==> 0 <= edge < wf.def@.edges.len()
    }
}

fn is_at(stop_at: &Option<String>, node: &str) -> (r: bool)
    ensures
        r == (types::opt_view(*stop_at) == Some(node@)),
{
    match stop_at {
        Some(s) => text::same(s.as_str(), node),
        None => false,
    }
}

fn continue_from(wf: &Workflow, node: &str, output: Json, stop_at: Option<String>) -> (r: Place)
    ensures
        r@ == proceeding(*wf, node@, output@, types::opt_view(stop_at)),
{
    match wf.next_node(node) {
        Some(n) => {
            if is_at(&stop_at, n.as_str()) {
                Place::Ended(Outcome::Value(output))
            } else {
                Place::At { node: n, input: output, stop_at }
            }
        },
        None => Place::Ended(Outcome::Value(output)),
    }
}

/// Forgets what is remembered of the body of a loop.
fn clear_nodes(wf: &Workflow, ctx: &mut RunCtx, body: &str, node: &str)
    ensures
        final(ctx)@ == forgetting(*wf, old(ctx)@, body@, node@),
{
    let nodes = wf.reachable(body, node);
    assert(nodes@ =~= body_nodes(*wf, body@, node@));
    ctx.loops = memo::progress_without(&ctx.loops, &nodes);
    let ghost all = text::views(nodes.items@);
    let ghost start = ctx@;
    let mut i: usize = 0;
    assert(start.outputs.remove_keys(all.take(0).to_set()) =~= start.outputs);
    while i < nodes.items.len()
        invariant
            i <= nodes.items@.len(),
            all == text::views(nodes.items@),
            ctx@ == (CtxView {
                outputs: start.outputs.remove_keys(all.take(i as int).to_set()),
                ..start
            }),
        decreases nodes.items@.len() - i,
    {
        memo::outputs_remove(&mut ctx.outputs, nodes.items[i].as_str());
        proof {
            let t = all.take(i as int);
            let u = all.take(i + 1);
            assert(u =~= t.push(all[i as int]));
            assert forall|n: Seq<char>| #[trigger] u.to_set().contains(n) <==> t.to_set().contains(
                n,
            ) || n == all[i as int] by {
                if t.contains(n) {
                    let k = choose|k: int| 0 <= k < t.len() && t[k] == n;
                    assert(u[k] == n);
                }
                if n == all[i as int] {
                    assert(u[i as int] == n);
                }
            }
            assert(ctx@.outputs =~= start.outputs.remove_keys(u.to_set()));
        }
        i = i + 1;
    }
    proof {
        assert(all.take(i as int) =~= all);
        assert(all.to_set() == nodes@);
        assert(nodes@ =~= body_nodes(*wf, body@, node@));
    }
}

impl RunCtx {
    fn awaits(&self) -> (r: bool)
        ensures
            r == self@.awaiting(),
    {
        match &self.resume {
            Some(target) => !memo::results_has(&self.results, target.0.as_str()),
            None => false,
        }
    }

    /// Whether the step that is to be resumed is among the nodes that can be reached
    /// from `start` without crossing `stop`.
    fn awaits_within(&self, wf: &Workflow, start: &str, stop: &str) -> (r: bool)
        ensures
            r == self@.awaits_in(body_nodes(*wf, start@, stop@)),
    {
        match &self.resume {
            Some(target) => if self.awaits() {
                wf.reachable(start, stop).contains(target.0.as_str())
            } else {
                false
            },
            None => false,
        }
    }

    fn awaits_in_fork(&self, wf: &Workflow, targets: &Vec<String>, join: &str) -> (r: bool)
        ensures
            r == self@.awaits_in(fork_nodes(*wf, text::views(targets@), join@)),
    {
        let ghost all = text::views(targets@);
        let ghost nodes = fork_nodes(*wf, all, join@);
        let mut i: usize = 0;
        while i < targets.len()
            invariant
                i <= targets@.len(),
                all == text::views(targets@),
                nodes == fork_nodes(*wf, all, join@),
                forall|k: int|
                    0 <= k < i ==> !self@.awaits_in(body_nodes(*wf, #[trigger] all[k], join@)),
            decreases targets@.len() - i,
        {
            assert(all[i as int] == targets@[i as int]@);
            if self.awaits_within(wf, targets[i].as_str(), join) {
                proof {
                    let n = (self@.resume->0).0;
                    assert(body_nodes(*wf, all[i as int], join@).contains(n));
                    assert(workflow::reaches(wf.def@.edges, all[i as int], join@, n));
                    assert(nodes.contains(n));
                }
                return true;
            }
            i = i + 1;
        }
        proof {
            if self@.awaits_in(nodes) {
                let n = (self@.resume->0).0;
                let k = choose|k: int|
                    0 <= k < all.len() && #[trigger] workflow::reaches(
                        wf.def@.edges,
                        all[k],
                        join@,
                        n,
                    );
                assert(body_nodes(*wf, all[k], join@).contains(n));
            }
        }
        false
    }
}

impl Strand {
    /// A strand that enters a node.
    pub fn new(node: String, input: Json, stop_at: Option<String>) -> (r: Strand)
        ensures
            r@ == (StrandView {
                place: PlaceView::At {
                    node: node@,
                    input: input@,
                    stop_at: types::opt_view(stop_at),
                },
                frames: Seq::empty(),
            }),
            forall|wf: Workflow| #[trigger] r@.valid(wf),
    {
        let r = Strand { place: Place::At { node, input, stop_at }, frames: Vec::new() };
        assert(r@.frames =~= Seq::<FrameView>::empty());
        r
    }

    fn push_frame(&mut self, frame: Frame)
        ensures
            final(self)@.place == old(self)@.place,
            final(self)@.frames == old(self)@.frames.push(frame@),
    {
        self.frames.push(frame);
        assert(self@.frames =~= old(self)@.frames.push(frame@));
    }

    fn give(
        &mut self,
        wf: &Workflow,
        ctx: &mut RunCtx,
        node: String,
        output: Json,
        stop_at: Option<String>,
    )
        ensures
            arrived(
                final(self)@,
                final(ctx)@,
                giving(
                    *wf,
                    node@,
                    output@,
                    types::opt_view(stop_at),
                    old(self)@.frames,
                    old(ctx)@,
                ),
            ),
    {
        let copy = output.copy();
        self.place = continue_from(wf, node.as_str(), copy, stop_at);
        memo::outputs_insert(&mut ctx.outputs, node, output);
    }

    fn next_item(
        &mut self,
        wf: &Workflow,
        ctx: &mut RunCtx,
        node: String,
        body: String,
        stop_at: Option<String>,
        items: Vec<Json>,
        next: usize,
        collected: Vec<Json>,
    )
        requires
            next <= items@.len(),
        ensures
            arrived(
                final(self)@,
                final(ctx)@,
                each_turn(
                    *wf,
                    node@,
                    body@,
                    types::opt_view(stop_at),
                    json::items_view(items@),
                    next as int,
                    json::items_view(collected@),
                    old(self)@.frames,
                    old(ctx)@,
                ),
            ),
    {
        proof {
            json::lemma_items_view(items@);
        }
        if next < items.len() {
            clear_nodes(wf, ctx, body.as_str(), node.as_str());
            let input = items[next].copy();
            self.place = Place::At { node: body.clone(), input, stop_at: Some(node.clone()) };
            self.push_frame(
                Frame::Each { node, body, stop_at, items, next: next + 1, collected },
            );
        } else {
            let output = Json::Array(collected);
            assert(output@ == json::JsonView::Array(json::items_view(collected@)));
            self.give(wf, ctx, node, output, stop_at);
        }
    }

    fn next_turn(
        &mut self,
        wf: &Workflow,
        ctx: &mut RunCtx,
        node: String,
        body: String,
        going: bool,
        condition: Option<Condition>,
        stop_at: Option<String>,
        iter: u32,
        holds: bool,
        acc: Json,
    )
        ensures
            arrived(
                final(self)@,
                final(ctx)@,
                do_turn(
                    *wf,
                    node@,
                    body@,
                    going,
                    workflow::condition_opt(condition),
                    types::opt_view(stop_at),
                    iter,
                    holds,
                    acc@,
                    old(self)@.frames,
                    old(ctx)@,
                ),
            ),
    {
        if holds != going || iter >= MAX_LOOP_ITERS {
            self.give(wf, ctx, node, acc, stop_at);
        } else {
            clear_nodes(wf, ctx, body.as_str(), node.as_str());
            let begun = acc.copy();
            self.place = Place::At { node: body.clone(), input: acc, stop_at: Some(node.clone()) };
            self.push_frame(Frame::Do { node, body, going, condition, stop_at, iter, begun });
        }
    }

    fn exec_branch(
        &mut self,
        wf: &Workflow,
        ctx: &RunCtx,
        state: &Json,
        node: String,
        input: Json,
        stop_at: Option<String>,
        from: usize,
    ) -> (r: (Action, Option<WorkflowEvent>))
        requires
            from <= wf.def.edges@.len(),
        ensures
            made(
                final(self)@,
                ctx@,
                r.0@,
                event_opt(r.1),
                arm_turn(
                    *wf,
                    node@,
                    input@,
                    types::opt_view(stop_at),
                    from as int,
                    old(self)@.frames,
                    ctx@,
                    state@,
                ),
            ),
    {
        let ghost edges = wf.def@.edges;
        let i = wf.next_arm(node.as_str(), from);
        if i < wf.def.edges.len() {
            assert(edges[i as int] == wf.def.edges@[i as int]@);
            if let EdgeKind::When { condition } = &wf.def.edges[i].kind {
                let ask = Action::Ask {
                    condition: workflow::copy_condition(condition),
                    scope: build_scope(ctx, state, &input),
                };
                self.place = Place::Arm { node, input, stop_at, edge: i };
                return (ask, None);
            }
        }
        match wf.next_node(node.as_str()) {
            Some(to) => {
                let told = WorkflowEvent::BranchTaken { node_id: node, edge_to: to.clone() };
                self.place = Place::At { node: to, input, stop_at };
                (Action::Go, Some(told))
            },
            None => {
                self.place = Place::Ended(Outcome::Value(input));
                (Action::Go, None)
            },
        }
    }

    fn exec_step(
        &mut self,
        wf: &Workflow,
        ctx: &RunCtx,
        node: String,
        step_id: &String,
        config: &Json,
        input: Json,
        stop_at: Option<String>,
    ) -> (r: (Action, Option<WorkflowEvent>))
        ensures
            made(
                final(self)@,
                ctx@,
                r.0@,
                event_opt(r.1),
                step_entered(
                    *wf,
                    node@,
                    step_id@,
                    config@,
                    input@,
                    types::opt_view(stop_at),
                    old(self)@.frames,
                    ctx@,
                ),
            ),
    {
        let resume_data = match &ctx.resume {
            Some(target) => if text::same(target.0.as_str(), node.as_str()) {
                Some(target.1.copy())
            } else {
                None
            },
            None => None,
        };
        if resume_data.is_none() {
            if let Some(cached) = memo::outputs_get(&ctx.outputs, node.as_str()) {
                self.place = continue_from(wf, node.as_str(), cached, stop_at);
                return (Action::Go, None);
            }
        }
        if !wf.has_step(step_id.as_str()) {
            let message = text::cat3("unknown step: '", step_id.as_str(), "'");
            self.place = Place::Ended(Outcome::Failed(CerseiError::Tool(message)));
            return (Action::Go, None);
        }
        let effective = merge_config(config, input);
        let told = WorkflowEvent::StepStarted {
            node_id: node.clone(),
            step_id: step_id.clone(),
            input: effective.copy(),
        };
        self.place = Place::Running { node: node.clone(), stop_at };
        (
            Action::Run { node, step_id: step_id.clone(), input: effective, resume_data },
            Some(told),
        )
    }

    fn exec_parallel(
        &mut self,
        wf: &Workflow,
        ctx: &RunCtx,
        node: &str,
        input: Json,
        stop_at: Option<String>,
    ) -> (r: Action)
        ensures
            made(
                final(self)@,
                ctx@,
                r@,
                None,
                fork_entered(
                    *wf,
                    node@,
                    input@,
                    types::opt_view(stop_at),
                    old(self)@.frames,
                    ctx@,
                ),
            ),
    {
        let targets = wf.forks(node);
        let join = wf.find_join(&targets);
        let mut strategy = JoinStrategy::AllOrFail;
        if let Some(j) = &join {
            if let Some(known) = memo::outputs_get(&ctx.outputs, j.as_str()) {
                if !ctx.awaits_in_fork(wf, &targets, j.as_str()) {
                    self.place = continue_from(wf, j.as_str(), known, stop_at);
                    return Action::Go;
                }
            }
            if let Some(n) = wf.node(j.as_str()) {
                if let NodeKind::Join { strategy: given } = &n.kind {
                    strategy = *given;
                }
            }
        }
        let known = types::copy_opt(&join);
        self.place = Place::Forked { join: known, strategy, stop_at };
        Action::Fork { targets, input, join }
    }

    fn exec_loop(
        &mut self,
        wf: &Workflow,
        ctx: &mut RunCtx,
        node: String,
        mode: LoopMode,
        body: &String,
        condition: &Option<Condition>,
        input: Json,
        stop_at: Option<String>,
    ) -> (r: Action)
        ensures
            made(
                final(self)@,
                final(ctx)@,
                r@,
                None,
                loop_entered(
                    *wf,
                    node@,
                    mode,
                    body@,
                    workflow::condition_opt(*condition),
                    input@,
                    types::opt_view(stop_at),
                    old(self)@.frames,
                    old(ctx)@,
                ),
            ),
    {
        if let Some(known) = memo::outputs_get(&ctx.outputs, node.as_str()) {
            if !ctx.awaits_within(wf, body.as_str(), node.as_str()) {
                self.place = continue_from(wf, node.as_str(), known, stop_at);
                return Action::Go;
            }
        }
        let stopped = memo::progress_of(&ctx.loops, node.as_str());
        ctx.loops = memo::progress_past(&ctx.loops, node.as_str());
        match mode {
            LoopMode::ForEach { concurrency } => {
                if let Json::Array(items) = input {
                    if concurrency <= 1 {
                        proof {
                            json::lemma_items_view(items@);
                        }
                        if let Some(LoopProgress::Each { values }) = stopped {
                            proof {
                                json::lemma_items_view(values@);
                            }
                            let k = values.len();
                            if k < items.len() {
                                let input = items[k].copy();
                                self.place = Place::At {
                                    node: body.clone(),
                                    input,
                                    stop_at: Some(node.clone()),
                                };
                                self.push_frame(
                                    Frame::Each {
                                        node,
                                        body: body.clone(),
                                        stop_at,
                                        items,
                                        next: k + 1,
                                        collected: values,
                                    },
                                );
                                return Action::Go;
                            }
                        }
                        let collected: Vec<Json> = Vec::new();
                        assert(json::items_view(collected@) =~= Seq::<json::JsonView>::empty());
                        self.next_item(wf, ctx, node, body.clone(), stop_at, items, 0, collected);
                        return Action::Go;
                    }
                    let mut slots: Vec<Option<Json>> = Vec::new();
                    let mut i: usize = 0;
                    proof {
                        json::lemma_items_view(items@);
                    }
                    while i < items.len()
                        invariant
                            i <= items@.len(),
                            slots@.len() == i,
                            forall|k: int| 0 <= k < i ==> (#[trigger] slots@[k]) is None,
                        decreases items@.len() - i,
                    {
                        slots.push(None);
                        i = i + 1;
                    }
                    assert(slots_view(slots@) =~= Seq::new(
                        items@.len(),
                        |k: int| None::<json::JsonView>,
                    ));
                    self.place = Place::Spread {
                        node: node.clone(),
                        stop_at,
                        slots,
                        suspended: None,
                    };
                    Action::Spread { items, node, body: body.clone(), limit: concurrency }
                } else {
                    self.place = Place::Ended(
                        Outcome::Failed(
                            CerseiError::Config("foreach input is not an array".to_string()),
                        ),
                    );
                    Action::Go
                }
            },
            _ => {
                let going = match mode {
                    LoopMode::DoWhile => true,
                    _ => false,
                };
                let mut iter: u32 = 0;
                let mut begun = input;
                let mut goes_on = false;
                if let Some(LoopProgress::Turns { turns, acc }) = stopped {
                    if turns < MAX_LOOP_ITERS {
                        iter = turns;
                        begun = acc;
                        goes_on = true;
                    }
                }
                if !goes_on {
                    clear_nodes(wf, ctx, body.as_str(), node.as_str());
                }
                self.place = Place::At {
                    node: body.clone(),
                    input: begun.copy(),
                    stop_at: Some(node.clone()),
                };
                self.push_frame(
                    Frame::Do {
                        node,
                        body: body.clone(),
                        going,
                        condition: workflow::copy_condition_opt(condition),
                        stop_at,
                        iter,
                        begun,
                    },
                );
                Action::Go
            },
        }
    }

    fn walk(
        &mut self,
        wf: &Workflow,
        ctx: &mut RunCtx,
        state: &Json,
        node: String,
        input: Json,
        stop_at: Option<String>,
    ) -> (r: (Action, Option<WorkflowEvent>))
        ensures
            made(
                final(self)@,
                final(ctx)@,
                r.0@,
                event_opt(r.1),
                entered(
                    *wf,
                    node@,
                    input@,
                    types::opt_view(stop_at),
                    old(self)@.frames,
                    old(ctx)@,
                    state@,
                ),
            ),
    {
        if is_at(&stop_at, node.as_str()) {
            self.place = Place::Ended(Outcome::Value(input));
            return (Action::Go, None);
        }
        if ctx.suspend.is_some() {
            self.place = Place::Ended(Outcome::Suspended);
            return (Action::Go, None);
        }
        let found = match wf.node(node.as_str()) {
            Some(n) => n,
            None => {
                let message = text::cat3("missing node '", node.as_str(), "'");
                self.place = Place::Ended(Outcome::Failed(CerseiError::Config(message)));
                return (Action::Go, None);
            },
        };
        match &found.kind {
            NodeKind::Step { step_id, config } => self.exec_step(
                wf,
                ctx,
                node,
                step_id,
                config,
                input,
                stop_at,
            ),
            NodeKind::Reshape { mapping } => {
                if let Some(known) = memo::outputs_get(&ctx.outputs, node.as_str()) {
                    self.place = continue_from(wf, node.as_str(), known, stop_at);
                    return (Action::Go, None);
                }
                let scope = build_scope(ctx, state, &input);
                let output = reshape(&scope, mapping);
                self.give(wf, ctx, node, output, stop_at);
                (Action::Go, None)
            },
            NodeKind::Parallel => {
                let action = self.exec_parallel(wf, ctx, node.as_str(), input, stop_at);
                (action, None)
            },
            NodeKind::Join { strategy } => {
                if let Some(known) = memo::outputs_get(&ctx.outputs, node.as_str()) {
                    self.place = continue_from(wf, node.as_str(), known, stop_at);
                    return (Action::Go, None);
                }
                self.give(wf, ctx, node, input, stop_at);
                (Action::Go, None)
            },
            NodeKind::Branch => self.exec_branch(wf, ctx, state, node, input, stop_at, 0),
            NodeKind::Loop { mode, body, condition } => {
                let action = self.exec_loop(
                    wf,
                    ctx,
                    node,
                    *mode,
                    body,
                    condition,
                    input,
                    stop_at,
                );
                (action, None)
            },
        }
    }

    fn deliver(
        &mut self,
        wf: &Workflow,
        ctx: &mut RunCtx,
        state: &Json,
        outcome: Outcome,
    ) -> (r: (Action, Option<WorkflowEvent>))
        requires
            forall|i: int|
                0 <= i < old(self)@.frames.len() ==> frame_ok(
                    #[trigger] old(self)@.frames[i],
                    false,
                ),
        ensures
            made(
                final(self)@,
                final(ctx)@,
                r.0@,
                event_opt(r.1),
                delivered(*wf, outcome@, old(self)@.frames, old(ctx)@, state@),
            ),
    {
        let ghost frames = self@.frames;
        if self.frames.len() == 0 {
            self.place = Place::Ended(outcome);
            return (Action::End, None);
        }
        let top = self.frames.pop().unwrap();
        assert(self@.frames =~= frames.drop_last());
        assert(frames.last() == top@);
        assert(frame_ok(frames[frames.len() - 1], false));
        match outcome {
            Outcome::Value(v) => match top {
                Frame::Each { node, body, stop_at, items, next, collected } => {
                    let ghost before = collected@;
                    let mut values = collected;
                    proof {
                        json::lemma_items_view(items@);
                    }
                    values.push(v);
                    assert(values@.drop_last() =~= before);
                    assert(json::items_view(values@) == json::items_view(before).push(v@));
                    self.next_item(wf, ctx, node, body, stop_at, items, next, values);
                    (Action::Go, None)
                },
                Frame::Do { node, body, going, condition, stop_at, iter, begun } => {
                    let turn: u32 = iter + 1;
                    let told = Some(
                        WorkflowEvent::LoopIteration { node_id: node.clone(), iteration: turn },
                    );
                    match condition {
                        Some(c) => {
                            let scope = build_scope(ctx, state, &v);
                            let ask = Action::Ask {
                                condition: workflow::copy_condition(&c),
                                scope,
                            };
                            self.place = Place::Turn { acc: v };
                            self.push_frame(
                                Frame::Do {
                                    node,
                                    body,
                                    going,
                                    condition: Some(c),
                                    stop_at,
                                    iter: turn,
                                    begun,
                                },
                            );
                            (ask, told)
                        },
                        None => {
                            self.next_turn(
                                wf,
                                ctx,
                                node,
                                body,
                                going,
                                None,
                                stop_at,
                                turn,
                                false,
                                v,
                            );
                            (Action::Go, told)
                        },
                    }
                },
            },
            Outcome::Suspended => {
                let (node, progress) = match top {
                    Frame::Each { node, collected, .. } => (
                        node,
                        LoopProgress::Each { values: collected },
                    ),
                    Frame::Do { node, iter, begun, .. } => (
                        node,
                        LoopProgress::Turns { turns: iter, acc: begun },
                    ),
                };
                memo::progress_note(&mut ctx.loops, node, progress);
                self.place = Place::Ended(Outcome::Suspended);
                (Action::Go, None)
            },
            other => {
                self.place = Place::Ended(other);
                (Action::Go, None)
            },
        }
    }

    /// Takes the place out of a strand.
    fn leave(&mut self) -> (r: Place)
        ensures
            r == old(self).place,
            final(self)@.frames == old(self)@.frames,
            final(self)@.place == PlaceView::Ended(OutcomeView::Suspended),
    {
        let mut place = Place::Ended(Outcome::Suspended);
        std::mem::swap(&mut place, &mut self.place);
        place
    }

    /// Goes on: enters the node that the strand is at, or hands what has ended to the
    /// loop around it. `state` is the state that the steps share.
    pub fn advance(&mut self, wf: &Workflow, ctx: &mut RunCtx, state: &Json) -> (r: (
        Action,
        Option<WorkflowEvent>,
    ))
        requires
            old(self)@.valid(*wf),
            old(self)@.place is At || old(self)@.place is Ended,
        ensures
            old(self)@.place matches PlaceView::At { node, input, stop_at } ==> made(
                final(self)@,
                final(ctx)@,
                r.0@,
                event_opt(r.1),
                entered(*wf, node, input, stop_at, old(self)@.frames, old(ctx)@, state@),
            ),
            old(self)@.place matches PlaceView::Ended(outcome) ==> made(
                final(self)@,
                final(ctx)@,
                r.0@,
                event_opt(r.1),
                delivered(*wf, outcome, old(self)@.frames, old(ctx)@, state@),
            ),
            final(self)@.valid(*wf),
            r.0 is Go ==> final(self)@.place is At || final(self)@.place is Ended,
            r.0 is Run ==> final(self)@.place is Running,
            r.0 is Ask ==> final(self)@.place is Arm || final(self)@.place is Turn,
            r.0 is Fork ==> final(self)@.place is Forked,
            r.0 is Spread ==> final(self)@.place is Spread,
            r.0 is End ==> final(self)@.place is Ended && final(self)@.frames.len() == 0,
    {
        let ghost before = self@;
        proof {
            assert forall|i: int| 0 <= i < before.frames.len() implies frame_ok(
                #[trigger] before.frames[i],
                false,
            ) by {}
        }
        let place = self.leave();
        let r = match place {
            Place::At { node, input, stop_at } => {
                proof {
                    lemma_entered_valid(
                        *wf,
                        node@,
                        input@,
                        types::opt_view(stop_at),
                        before.frames,
                        ctx@,
                        state@,
                    );
                }
                self.walk(wf, ctx, state, node, input, stop_at)
            },
            Place::Ended(outcome) => {
                proof {
                    lemma_delivered_valid(*wf, outcome@, before.frames, ctx@, state@);
                }
                self.deliver(wf, ctx, state, outcome)
            },
            other => {
                self.place = other;
                (Action::Go, None)
            },
        };
        r
    }
}

/// A move leads to a strand as it can be, at a place that fits what is to be done.
spec fn fits(wf: Workflow, m: Move) -> bool {
    &&& StrandView { place: m.place, frames: m.frames }.valid(wf)
    &&& m.action is Go ==> m.place is At || m.place is Ended
    &&& m.action is Run ==> m.place is Running
    &&& m.action is Ask ==> m.place is Arm || m.place is Turn
    &&& m.action is Fork ==> m.place is Forked
    &&& m.action is Spread ==> m.place is Spread
    &&& m.action is End ==> m.place is Ended && m.frames.len() == 0
}

/// Loops as they can be while nothing is evaluated.
spec fn frames_ok(frames: Seq<FrameView>) -> bool {
    forall|i: int| 0 <= i < frames.len() ==> frame_ok(#[trigger] frames[i], false)
}

proof fn lemma_arm_position(edges: Seq<workflow::EdgeView>, id: Seq<char>, i: int)
    requires
        0 <= i <= edges.len(),
    ensures
        i <= workflow::arm_position(edges, id, i) <= edges.len(),
    decreases edges.len() - i,
{
    if i < edges.len() {
        lemma_arm_position(edges, id, i + 1);
    }
}

proof fn lemma_pushed_frames(frames: Seq<FrameView>, f: FrameView)
    requires
        frames_ok(frames),
        frame_ok(f, false),
    ensures
        frames_ok(frames.push(f)),
{
    let more = frames.push(f);
    assert forall|i: int| 0 <= i < more.len() implies frame_ok(#[trigger] more[i], false) by {
        if i < frames.len() {
            assert(more[i] == frames[i]);
        }
    }
}

proof fn lemma_entered_valid(
    wf: Workflow,
    node: Seq<char>,
    input: json::JsonView,
    stop_at: Option<Seq<char>>,
    frames: Seq<FrameView>,
    ctx: CtxView,
    state: json::JsonView,
)
    requires
        frames_ok(frames),
    ensures
        fits(wf, entered(wf, node, input, stop_at, frames, ctx, state)),
{
    lemma_arm_position(wf.def@.edges, node, 0);
    if let Some(workflow::KindView::Loop { body, .. }) = wf.kind_of(node) {
        let m = entered(wf, node, input, stop_at, frames, ctx, state);
        if let json::JsonView::Array(items) = input {
            lemma_each_valid(
                wf,
                node,
                body,
                stop_at,
                items,
                0,
                Seq::empty(),
                frames,
                ctx.past(node),
            );
        }
        if m.frames.len() > frames.len() {
            assert(m.frames =~= frames.push(m.frames.last()));
            lemma_pushed_frames(frames, m.frames.last());
        }
    }
}

proof fn lemma_each_valid(
    wf: Workflow,
    node: Seq<char>,
    body: Seq<char>,
    stop_at: Option<Seq<char>>,
    items: Seq<json::JsonView>,
    next: int,
    collected: Seq<json::JsonView>,
    outer: Seq<FrameView>,
    ctx: CtxView,
)
    requires
        frames_ok(outer),
        0 <= next <= items.len(),
        collected.len() == next,
    ensures
        fits(wf, each_turn(wf, node, body, stop_at, items, next, collected, outer, ctx)),
{
    if next < items.len() {
        lemma_pushed_frames(
            outer,
            FrameView::Each { node, body, stop_at, items, next: next + 1, collected },
        );
    }
}

proof fn lemma_do_valid(
    wf: Workflow,
    node: Seq<char>,
    body: Seq<char>,
    going: bool,
    condition: Option<json::JsonView>,
    stop_at: Option<Seq<char>>,
    iter: u32,
    holds: bool,
    acc: json::JsonView,
    outer: Seq<FrameView>,
    ctx: CtxView,
)
    requires
        frames_ok(outer),
    ensures
        fits(
            wf,
            do_turn(
                wf,
                node,
                body,
                going,
                condition,
                stop_at,
                iter,
                holds,
                acc,
                outer,
                ctx,
            ),
        ),
{
    if holds == going && iter < MAX_LOOP_ITERS {
        lemma_pushed_frames(
            outer,
            FrameView::Do { node, body, going, condition, stop_at, iter, begun: acc },
        );
    }
}

proof fn lemma_delivered_valid(
    wf: Workflow,
    outcome: OutcomeView,
    frames: Seq<FrameView>,
    ctx: CtxView,
    state: json::JsonView,
)
    requires
        frames_ok(frames),
    ensures
        fits(wf, delivered(wf, outcome, frames, ctx, state)),
{
    if frames.len() > 0 {
        let outer = frames.drop_last();
        let top = frames.last();
        assert(frame_ok(frames[frames.len() - 1], false));
        assert forall|i: int| 0 <= i < outer.len() implies frame_ok(#[trigger] outer[i], false) by {
            assert(outer[i] == frames[i]);
        }
        if let OutcomeView::Value(v) = outcome {
            match top {
                FrameView::Each { node, body, stop_at, items, next, collected } => {
                    lemma_each_valid(
                        wf,
                        node,
                        body,
                        stop_at,
                        items,
                        next,
                        collected.push(v),
                        outer,
                        ctx,
                    );
                },
                FrameView::Do { node, body, going, condition, stop_at, iter, begun } => {
                    let turn = (iter + 1) as u32;
                    if condition is None {
                        lemma_do_valid(
                            wf,
                            node,
                            body,
                            going,
                            condition,
                            stop_at,
                            turn,
                            false,
                            v,
                            outer,
                            ctx,
                        );
                    } else {
                        let f = FrameView::Do {
                            node,
                            body,
                            going,
                            condition,
                            stop_at,
                            iter: turn,
                            begun,
                        };
                        let more = outer.push(f);
                        assert forall|i: int| 0 <= i < more.len() implies frame_ok(
                            #[trigger] more[i],
                            i == more.len() - 1,
                        ) by {
                            if i < outer.len() {
                                assert(more[i] == outer[i]);
                            }
                        }
                    }
                },
            }
        }
    }
}

// ─── What came of it ─────────────────────────────────────────────────────────

/// What came of a step.
#[derive(Debug, PartialEq)]
pub enum StepReply {
    Done(Json),
    Suspended { resume_schema: Json, payload: Json },
    /// The error, and how it is written.
    Failed { error: CerseiError, shown: String },
}

/// The milliseconds from one time to another; none where the clock went back.
pub open spec fn elapsed(started: i64, ended: i64) -> u64 {
    if ended < started {
        0
    } else {
        (ended - started) as u64
    }
}

/// A step came to its end.
pub open spec fn stepped(
    wf: Workflow,
    node: Seq<char>,
    stop_at: Option<Seq<char>>,
    reply: StepReply,
    started: i64,
    ended: i64,
    frames: Seq<FrameView>,
    ctx: CtxView,
) -> Move {
    match reply {
        StepReply::Done(output) => {
            let reported = ctx.reporting(
                node,
                memo::StepView {
                    status: RunStatus::Success,
                    output: Some(output@),
                    error: None,
                    started_at: started,
                    ended_at: Some(ended),
                },
            );
            Move {
                event: Some(
                    EventView::StepCompleted {
                        node_id: node,
                        output: output@,
                        duration_ms: elapsed(started, ended),
                    },
                ),
                ..giving(wf, node, output@, stop_at, frames, reported)
            }
        },
        StepReply::Suspended { resume_schema, payload } => {
            let reported = ctx.reporting(
                node,
                memo::StepView {
                    status: RunStatus::Suspended,
                    output: None,
                    error: None,
                    started_at: started,
                    ended_at: None,
                },
            );
            let point = SuspendView {
                node_id: node,
                resume_schema: resume_schema@,
                payload: payload@,
            };
            Move {
                event: Some(
                    EventView::StepSuspended { node_id: node, resume_schema: resume_schema@ },
                ),
                ..ending(
                    OutcomeView::Suspended,
                    frames,
                    CtxView { suspend: Some(point), ..reported },
                )
            }
        },
        StepReply::Failed { error, shown } => {
            let reported = ctx.reporting(
                node,
                memo::StepView {
                    status: RunStatus::Failed,
                    output: None,
                    error: Some(shown@),
                    started_at: started,
                    ended_at: Some(ended),
                },
            );
            Move {
                event: Some(EventView::StepFailed { node_id: node, error: shown@ }),
                ..ending(OutcomeView::Failed(runner::fail_view(error)), frames, reported)
            }
        },
    }
}

/// A condition was evaluated: that of an arm, or that of the innermost loop.
pub open spec fn answered(
    wf: Workflow,
    strand: StrandView,
    holds: bool,
    ctx: CtxView,
    state: json::JsonView,
) -> Move {
    match strand.place {
        PlaceView::Arm { node, input, stop_at, edge } => if holds {
            arm_taken(node, wf.def@.edges[edge].to, input, stop_at, strand.frames, ctx)
        } else {
            arm_turn(wf, node, input, stop_at, edge + 1, strand.frames, ctx, state)
        },
        PlaceView::Turn { acc } => match strand.frames.last() {
            FrameView::Do { node, body, going, condition, stop_at, iter, .. } => do_turn(
                wf,
                node,
                body,
                going,
                condition,
                stop_at,
                iter,
                holds,
                acc,
                strand.frames.drop_last(),
                ctx,
            ),
            _ => going_to(strand.place, strand.frames, ctx),
        },
        _ => going_to(strand.place, strand.frames, ctx),
    }
}

/// Branches came to their ends. The join has their values as its output.
pub open spec fn rejoined(
    wf: Workflow,
    join: Option<Seq<char>>,
    strategy: JoinStrategy,
    stop_at: Option<Seq<char>>,
    results: Seq<OutcomeView>,
    frames: Seq<FrameView>,
    ctx: CtxView,
) -> Move {
    match (settled(results, strategy), join) {
        (OutcomeView::Value(v), Some(j)) => giving(wf, j, v, stop_at, frames, ctx),
        (other, _) => ending(other, frames, ctx),
    }
}

/// Puts results on top of others.
pub open spec fn reported_over(
    ctx: CtxView,
    more: Map<Seq<char>, memo::StepView>,
) -> CtxView {
    CtxView { results: ctx.results.union_prefer_right(more), ..ctx }
}

proof fn lemma_settled_early(results: Seq<OutcomeView>, strategy: JoinStrategy, n: int)
    requires
        0 <= n <= results.len(),
        !(settled(results.take(n), strategy) is Value),
    ensures
        settled(results, strategy) == settled(results.take(n), strategy),
    decreases results.len(),
{
    if n == results.len() {
        assert(results.take(n) =~= results);
    } else {
        assert(results.drop_last().take(n) =~= results.take(n));
        lemma_settled_early(results.drop_last(), strategy, n);
    }
}

/// What branches come to together.
pub fn settle(results: Vec<Outcome>, strategy: JoinStrategy) -> (r: Outcome)
    ensures
        r@ == settled(outcomes_view(results@), strategy),
{
    let ghost all = outcomes_view(results@);
    let mut rest = results;
    let mut values: Vec<Json> = Vec::new();
    let ghost mut i: int = 0;
    // The outcomes are taken from the end, so they are turned round first.
    let mut turned: Vec<Outcome> = Vec::new();
    while rest.len() > 0
        invariant
            rest@.len() + turned@.len() == all.len(),
            forall|k: int| 0 <= k < rest@.len() ==> (#[trigger] rest@[k])@ == all[k],
            forall|k: int|
                0 <= k < turned@.len() ==> (#[trigger] turned@[k])@ == all[all.len() - 1 - k],
        decreases rest@.len(),
    {
        let last = rest.pop().unwrap();
        turned.push(last);
    }
    assert(settled(all.take(0), strategy) == OutcomeView::Value(
        json::JsonView::Array(Seq::empty()),
    ));
    assert(json::items_view(values@) =~= Seq::<json::JsonView>::empty());
    while turned.len() > 0
        invariant
            all == outcomes_view(results@),
            0 <= i,
            i + turned@.len() == all.len(),
            forall|k: int|
                0 <= k < turned@.len() ==> (#[trigger] turned@[k])@ == all[all.len() - 1 - k],
            settled(all.take(i), strategy) == OutcomeView::Value(
                json::JsonView::Array(json::items_view(values@)),
            ),
        decreases turned@.len(),
    {
        assert(turned@[turned@.len() - 1]@ == all[i]);
        let next = turned.pop().unwrap();
        assert(all.take(i + 1).drop_last() =~= all.take(i));
        assert(all.take(i + 1).last() == next@);
        let ghost before = values@;
        match next {
            Outcome::Value(v) => {
                values.push(v);
                assert(values@.drop_last() =~= before);
                assert(json::items_view(values@) == json::items_view(before).push(v@));
            },
            Outcome::Suspended => {
                proof {
                    lemma_settled_early(all, strategy, i + 1);
                }
                return Outcome::Suspended;
            },
            Outcome::Failed(e) => match strategy {
                JoinStrategy::AllOrFail => {
                    proof {
                        lemma_settled_early(all, strategy, i + 1);
                    }
                    return Outcome::Failed(e);
                },
                JoinStrategy::AllSettled => {
                    let null = Json::Null;
                    assert(null@ == json::JsonView::Null);
                    values.push(null);
                    assert(values@.drop_last() =~= before);
                    assert(json::items_view(values@) == json::items_view(before).push(
                        json::JsonView::Null,
                    ));
                },
            },
        }
        proof {
            i = i + 1;
        }
    }
    assert(all.take(i) =~= all);
    let array = Json::Array(values);
    assert(array@ == json::JsonView::Array(json::items_view(values@)));
    Outcome::Value(array)
}

impl Strand {
    /// Takes in what came of a step. Times are in milliseconds.
    pub fn on_step(
        &mut self,
        wf: &Workflow,
        ctx: &mut RunCtx,
        reply: StepReply,
        started: i64,
        ended: i64,
    ) -> (r: Option<WorkflowEvent>)
        requires
            old(self)@.valid(*wf),
            old(self)@.place is Running,
        ensures
            old(self)@.place matches PlaceView::Running { node, stop_at } && made(
                final(self)@,
                final(ctx)@,
                ActionView::Go,
                event_opt(r),
                stepped(
                    *wf,
                    node,
                    stop_at,
                    reply,
                    started,
                    ended,
                    old(self)@.frames,
                    old(ctx)@,
                ),
            ),
            final(self)@.valid(*wf),
            final(self)@.place is At || final(self)@.place is Ended,
    {
        let place = self.leave();
        if let Place::Running { node, stop_at } = place {
            match reply {
                StepReply::Done(output) => {
                    let result = StepResult {
                        status: RunStatus::Success,
                        output: Some(output.copy()),
                        error: None,
                        started_at: started,
                        ended_at: Some(ended),
                    };
                    memo::results_insert(&mut ctx.results, node.clone(), result);
                    let duration_ms: u64 = if ended < started {
                        0
                    } else {
                        (ended as i128 - started as i128) as u64
                    };
                    let told = WorkflowEvent::StepCompleted {
                        node_id: node.clone(),
                        output: output.copy(),
                        duration_ms,
                    };
                    self.give(wf, ctx, node, output, stop_at);
                    Some(told)
                },
                StepReply::Suspended { resume_schema, payload } => {
                    let result = StepResult {
                        status: RunStatus::Suspended,
                        output: None,
                        error: None,
                        started_at: started,
                        ended_at: None,
                    };
                    memo::results_insert(&mut ctx.results, node.clone(), result);
                    let told = WorkflowEvent::StepSuspended {
                        node_id: node.clone(),
                        resume_schema: resume_schema.copy(),
                    };
                    ctx.suspend = Some(SuspendPoint { node_id: node, resume_schema, payload });
                    self.place = Place::Ended(Outcome::Suspended);
                    Some(told)
                },
                StepReply::Failed { error, shown } => {
                    let result = StepResult {
                        status: RunStatus::Failed,
                        output: None,
                        error: Some(shown.clone()),
                        started_at: started,
                        ended_at: Some(ended),
                    };
                    memo::results_insert(&mut ctx.results, node.clone(), result);
                    let told = WorkflowEvent::StepFailed { node_id: node, error: shown };
                    self.place = Place::Ended(Outcome::Failed(error));
                    Some(told)
                },
            }
        } else {
            None
        }
    }

    /// Takes in what a condition came to.
    pub fn on_condition(
        &mut self,
        wf: &Workflow,
        ctx: &mut RunCtx,
        state: &Json,
        holds: bool,
    ) -> (r: (Action, Option<WorkflowEvent>))
        requires
            old(self)@.valid(*wf),
            old(self)@.place is Arm || old(self)@.place is Turn,
        ensures
            made(
                final(self)@,
                final(ctx)@,
                r.0@,
                event_opt(r.1),
                answered(*wf, old(self)@, holds, old(ctx)@, state@),
            ),
            final(self)@.valid(*wf),
            r.0 is Go ==> final(self)@.place is At || final(self)@.place is Ended,
            r.0 is Ask ==> final(self)@.place is Arm,
            r.0 is Go || r.0 is Ask,
    {
        let ghost before = self@;
        let place = self.leave();
        match place {
            Place::Arm { node, input, stop_at, edge } => {
                let count = wf.def.edges.len();
                assert(edge < count);
                assert(wf.def@.edges[edge as int] == wf.def.edges@[edge as int]@);
                proof {
                    lemma_arm_position(wf.def@.edges, node@, edge + 1);
                }
                if holds {
                    let to = wf.def.edges[edge].to.clone();
                    let told = WorkflowEvent::BranchTaken { node_id: node, edge_to: to.clone() };
                    self.place = Place::At { node: to, input, stop_at };
                    (Action::Go, Some(told))
                } else {
                    self.exec_branch(wf, ctx, state, node, input, stop_at, edge + 1)
                }
            },
            Place::Turn { acc } => {
                let top = self.frames.pop().unwrap();
                assert(self@.frames =~= before.frames.drop_last());
                assert(before.frames.last() == top@);
                let ghost outer = self@.frames;
                if let Frame::Do { node, body, going, condition, stop_at, iter, .. } = top {
                    proof {
                        assert forall|i: int| 0 <= i < outer.len() implies frame_ok(
                            #[trigger] outer[i],
                            false,
                        ) by {
                            assert(outer[i] == before.frames[i]);
                        }
                        lemma_do_valid(
                            *wf,
                            node@,
                            body@,
                            going,
                            workflow::condition_opt(condition),
                            types::opt_view(stop_at),
                            iter,
                            holds,
                            acc@,
                            outer,
                            ctx@,
                        );
                    }
                    self.next_turn(
                        wf,
                        ctx,
                        node,
                        body,
                        going,
                        condition,
                        stop_at,
                        iter,
                        holds,
                        acc,
                    );
                }
                (Action::Go, None)
            },
            other => {
                self.place = other;
                (Action::Go, None)
            },
        }
    }

    /// Takes in what branches came to, in the order of the fork.
    pub fn on_branches(&mut self, wf: &Workflow, ctx: &mut RunCtx, results: Vec<Outcome>)
        requires
            old(self)@.valid(*wf),
            old(self)@.place is Forked,
        ensures
            old(self)@.place matches PlaceView::Forked { join, strategy, stop_at } && arrived(
                final(self)@,
                final(ctx)@,
                rejoined(
                    *wf,
                    join,
                    strategy,
                    stop_at,
                    outcomes_view(results@),
                    old(self)@.frames,
                    old(ctx)@,
                ),
            ),
            final(self)@.valid(*wf),
            final(self)@.place is At || final(self)@.place is Ended,
    {
        let place = self.leave();
        if let Place::Forked { join, strategy, stop_at } = place {
            match settle(results, strategy) {
                Outcome::Value(v) => match join {
                    Some(j) => {
                        self.give(wf, ctx, j, v, stop_at);
                    },
                    None => {
                        self.place = Place::Ended(Outcome::Value(v));
                    },
                },
                other => {
                    self.place = Place::Ended(other);
                },
            }
        }
    }

    /// Takes in what the walk on one item came to, with what it held. The results of
    /// its steps are reported with the others; an error ends the loop.
    pub fn on_item(
        &mut self,
        wf: &Workflow,
        ctx: &mut RunCtx,
        idx: usize,
        outcome: Outcome,
        child: RunCtx,
    )
        requires
            old(self)@.valid(*wf),
            old(self)@.place matches PlaceView::Spread { slots, .. } && idx < slots.len(),
        ensures
            old(self)@.place matches PlaceView::Spread { node, stop_at, slots, suspended }
                && arrived(
                final(self)@,
                final(ctx)@,
                item_done(
                    node,
                    stop_at,
                    slots,
                    suspended,
                    idx as int,
                    outcome@,
                    child@,
                    old(self)@.frames,
                    old(ctx)@,
                ),
            ),
            final(self)@.valid(*wf),
            final(self)@.place is Spread || final(self)@.place is Ended,
    {
        let place = self.leave();
        report(ctx, &child);
        if let Place::Spread { node, stop_at, slots, suspended } = place {
            let ghost before = slots@;
            let mut filled = slots;
            match outcome {
                Outcome::Value(v) => {
                    let value = Some(v);
                    filled.set(idx, value);
                    assert(slots_view(filled@) =~= slots_view(before).update(
                        idx as int,
                        memo::json_opt(value),
                    ));
                    self.place = Place::Spread { node, stop_at, slots: filled, suspended };
                },
                Outcome::Suspended => {
                    let point = match suspended {
                        Some(p) => Some(p),
                        None => child.suspend,
                    };
                    self.place = Place::Spread { node, stop_at, slots: filled, suspended: point };
                },
                Outcome::Failed(e) => {
                    self.place = Place::Ended(Outcome::Failed(e));
                },
            }
        }
    }

    /// All items came to their ends. The loop has their values as its output, in the
    /// order of the items; one that was suspended suspends the run.
    pub fn on_items_done(&mut self, wf: &Workflow, ctx: &mut RunCtx)
        requires
            old(self)@.valid(*wf),
            old(self)@.place is Spread,
        ensures
            old(self)@.place matches PlaceView::Spread { node, stop_at, slots, suspended }
                && arrived(
                final(self)@,
                final(ctx)@,
                items_done(
                    *wf,
                    node,
                    stop_at,
                    slots,
                    suspended,
                    old(self)@.frames,
                    old(ctx)@,
                ),
            ),
            final(self)@.valid(*wf),
            final(self)@.place is At || final(self)@.place is Ended,
    {
        let place = self.leave();
        if let Place::Spread { node, stop_at, slots, suspended } = place {
            match suspended {
                Some(p) => {
                    ctx.suspend = Some(p);
                    self.place = Place::Ended(Outcome::Suspended);
                },
                None => {
                    let output = Json::Array(gather(&slots));
                    assert(output@ == json::JsonView::Array(present(slots_view(slots@))));
                    self.give(wf, ctx, node, output, stop_at);
                },
            }
        }
    }

    /// What the whole walk came to.
    pub fn outcome(self) -> (r: Outcome)
        requires
            self@.place is Ended,
        ensures
            PlaceView::Ended(r@) == self@.place,
    {
        match self.place {
            Place::Ended(o) => o,
            _ => Outcome::Suspended,
        }
    }
}

/// The walk on one item came to its end.
pub open spec fn item_done(
    node: Seq<char>,
    stop_at: Option<Seq<char>>,
    slots: Seq<Option<json::JsonView>>,
    suspended: Option<SuspendView>,
    idx: int,
    outcome: OutcomeView,
    child: CtxView,
    frames: Seq<FrameView>,
    ctx: CtxView,
) -> Move {
    let reported = reported_over(ctx, child.results);
    match outcome {
        OutcomeView::Value(v) => going_to(
            PlaceView::Spread { node, stop_at, slots: slots.update(idx, Some(v)), suspended },
            frames,
            reported,
        ),
        OutcomeView::Suspended => going_to(
            PlaceView::Spread {
                node,
                stop_at,
                slots,
                suspended: if suspended is Some {
                    suspended
                } else {
                    child.suspend
                },
            },
            frames,
            reported,
        ),
        OutcomeView::Failed(e) => ending(OutcomeView::Failed(e), frames, reported),
    }
}

/// The walks on all items came to their ends.
pub open spec fn items_done(
    wf: Workflow,
    node: Seq<char>,
    stop_at: Option<Seq<char>>,
    slots: Seq<Option<json::JsonView>>,
    suspended: Option<SuspendView>,
    frames: Seq<FrameView>,
    ctx: CtxView,
) -> Move {
    if suspended is Some {
        ending(OutcomeView::Suspended, frames, CtxView { suspend: suspended, ..ctx })
    } else {
        giving(wf, node, json::JsonView::Array(present(slots)), stop_at, frames, ctx)
    }
}

fn gather(slots: &Vec<Option<Json>>) -> (r: Vec<Json>)
    ensures
        json::items_view(r@) == present(slots_view(slots@)),
{
    let ghost all = slots_view(slots@);
    let mut out: Vec<Json> = Vec::new();
    let mut i: usize = 0;
    assert(json::items_view(out@) =~= present(all.take(0)));
    while i < slots.len()
        invariant
            i <= slots@.len(),
            all == slots_view(slots@),
            json::items_view(out@) == present(all.take(i as int)),
        decreases slots@.len() - i,
    {
        assert(all.take(i + 1).drop_last() =~= all.take(i as int));
        assert(all.take(i + 1).last() == memo::json_opt(slots@[i as int]));
        if let Some(v) = &slots[i] {
            let ghost before = out@;
            let copy = v.copy();
            out.push(copy);
            assert(out@.drop_last() =~= before);
            assert(json::items_view(out@) == json::items_view(before).push(v@));
        }
        i = i + 1;
    }
    assert(all.take(i as int) =~= all);
    out
}

/// Reports the results of one walk with those of another.
fn report(ctx: &mut RunCtx, child: &RunCtx)
    ensures
        final(ctx)@ == reported_over(old(ctx)@, child@.results),
{
    let list = memo::results_list(&child.results);
    let ghost all = list@;
    let ghost start = ctx@;
    let mut i: usize = 0;
    assert(start.results.union_prefer_right(memo::results_view(all.take(0))) =~= start.results);
    while i < list.len()
        invariant
            i <= list@.len(),
            all == list@,
            ctx@ == reported_over(start, memo::results_view(all.take(i as int))),
        decreases list@.len() - i,
    {
        assert(all.take(i + 1).drop_last() =~= all.take(i as int));
        assert(all.take(i + 1).last() == all[i as int]);
        let e = &list[i];
        memo::results_insert(&mut ctx.results, e.0.clone(), e.1.clone());
        assert(ctx@.results =~= start.results.union_prefer_right(
            memo::results_view(all.take(i + 1)),
        ));
        i = i + 1;
    }
    assert(all.take(i as int) =~= all);
}

// ─── Runs ────────────────────────────────────────────────────────────────────

impl RunCtx {
    /// What a run begins with: the outputs that are known, how far its loops had come,
    /// and the node that is resumed with its data.
    pub fn new(
        run_id: String,
        input: Json,
        resume: Option<(String, Json)>,
        preload: Vec<(String, Json)>,
        loops: Vec<(String, LoopProgress)>,
    ) -> (r: RunCtx)
        ensures
            r@ == (CtxView {
                run_id: run_id@,
                input: input@,
                outputs: json::entries_view(preload@),
                results: Map::empty(),
                loops: memo::progress_view(loops@),
                resume: match resume {
                    Some(t) => Some((t.0@, t.1@)),
                    None => None,
                },
                suspend: None,
            }),
    {
        let mut outputs = memo::outputs_new();
        let results = memo::results_new();
        let ghost all = preload@;
        let mut i: usize = 0;
        assert(memo::outputs_held(outputs) =~= json::entries_view(all.take(0)));
        while i < preload.len()
            invariant
                i <= preload@.len(),
                all == preload@,
                memo::outputs_held(outputs) == json::entries_view(all.take(i as int)),
            decreases preload@.len() - i,
        {
            assert(all.take(i + 1).drop_last() =~= all.take(i as int));
            assert(all.take(i + 1).last() == all[i as int]);
            let e = &preload[i];
            memo::outputs_insert(&mut outputs, e.0.clone(), e.1.copy());
            i = i + 1;
        }
        assert(all.take(i as int) =~= all);
        assert(memo::results_held(results) =~= Map::<Seq<char>, memo::StepView>::empty());
        RunCtx { run_id, input, outputs, results, loops, resume, suspend: None }
    }

    /// What the walk on one item of a loop begins with, where items are walked at the
    /// same time: what the run remembers, but for the body of the loop. It remembers
    /// and reports for itself, and nothing is resumed in it.
    pub fn child(&self, wf: &Workflow, body: &str, node: &str) -> (r: RunCtx)
        ensures
            r@ == (CtxView {
                results: Map::empty(),
                loops: Map::empty(),
                resume: None,
                suspend: None,
                ..forgetting(*wf, self@, body@, node@)
            }),
    {
        let nodes = wf.reachable(body, node);
        let list = memo::outputs_list(&self.outputs);
        let mut outputs = memo::outputs_new();
        let results = memo::results_new();
        let ghost all = list@;
        let ghost gone = body_nodes(*wf, body@, node@);
        let mut i: usize = 0;
        assert(nodes@ =~= gone);
        assert(memo::outputs_held(outputs) =~= json::entries_view(all.take(0)).remove_keys(gone));
        while i < list.len()
            invariant
                i <= list@.len(),
                all == list@,
                nodes@ == gone,
                memo::outputs_held(outputs) == json::entries_view(all.take(i as int)).remove_keys(
                    gone,
                ),
            decreases list@.len() - i,
        {
            assert(all.take(i + 1).drop_last() =~= all.take(i as int));
            assert(all.take(i + 1).last() == all[i as int]);
            let e = &list[i];
            if !nodes.contains(e.0.as_str()) {
                memo::outputs_insert(&mut outputs, e.0.clone(), e.1.copy());
            }
            assert(memo::outputs_held(outputs) =~= json::entries_view(all.take(i + 1)).remove_keys(
                gone,
            ));
            i = i + 1;
        }
        assert(all.take(i as int) =~= all);
        assert(memo::results_held(results) =~= Map::<Seq<char>, memo::StepView>::empty());
        RunCtx {
            run_id: self.run_id.clone(),
            input: self.input.copy(),
            outputs,
            results,
            loops: Vec::new(),
            resume: None,
            suspend: None,
        }
    }
}

/// What a run came to.
#[derive(Debug, PartialEq)]
pub struct WorkflowResult {
    pub run_id: String,
    pub status: RunStatus,
    pub input: Json,
    pub steps: Vec<(String, StepResult)>,
    pub result: Option<Json>,
    pub state: Json,
    pub error: Option<String>,
    pub suspended: Vec<SuspendPoint>,
}

#[verifier::ext_equal]
pub ghost struct ResultView {
    pub run_id: Seq<char>,
    pub status: RunStatus,
    pub input: json::JsonView,
    pub steps: Map<Seq<char>, memo::StepView>,
    pub result: Option<json::JsonView>,
    pub state: json::JsonView,
    pub error: Option<Seq<char>>,
    pub suspended: Seq<SuspendView>,
}

impl View for WorkflowResult {
    type V = ResultView;

    open spec fn view(&self) -> ResultView {
        ResultView {
            run_id: self.run_id@,
            status: self.status,
            input: self.input@,
            steps: memo::results_view(self.steps@),
            result: memo::json_opt(self.result),
            state: self.state@,
            error: types::opt_view(self.error),
            suspended: Seq::new(self.suspended@.len(), |i: int| self.suspended@[i]@),
        }
    }
}

/// What is kept of a suspended run.
#[derive(Debug, PartialEq)]
pub struct RunSnapshot {
    pub run_id: String,
    pub input: Json,
    pub state: Json,
    pub outputs: Vec<(String, Json)>,
    /// How far the loops had come that the run was suspended in.
    pub loops: Vec<(String, LoopProgress)>,
}

#[verifier::ext_equal]
pub ghost struct SnapshotView {
    pub run_id: Seq<char>,
    pub input: json::JsonView,
    pub state: json::JsonView,
    pub outputs: Map<Seq<char>, json::JsonView>,
    pub loops: Map<Seq<char>, memo::ProgressView>,
}

impl View for RunSnapshot {
    type V = SnapshotView;

    open spec fn view(&self) -> SnapshotView {
        SnapshotView {
            run_id: self.run_id@,
            input: self.input@,
            state: self.state@,
            outputs: json::entries_view(self.outputs@),
            loops: memo::progress_view(self.loops@),
        }
    }
}

/// What a run came to, by what its walk came to.
pub open spec fn result_of(
    ctx: CtxView,
    outcome: OutcomeView,
    shown: Seq<char>,
    state: json::JsonView,
) -> ResultView {
    ResultView {
        run_id: ctx.run_id,
        status: match outcome {
            OutcomeView::Value(_) => RunStatus::Success,
            OutcomeView::Suspended => RunStatus::Suspended,
            OutcomeView::Failed(_) => RunStatus::Failed,
        },
        input: ctx.input,
        steps: ctx.results,
        result: match outcome {
            OutcomeView::Value(v) => Some(v),
            _ => None,
        },
        state,
        error: if outcome is Failed {
            Some(shown)
        } else {
            None
        },
        suspended: match (outcome, ctx.suspend) {
            (OutcomeView::Suspended, Some(p)) => seq![p],
            _ => Seq::empty(),
        },
    }
}

/// What a run came to, and what is kept of it where it was suspended. `shown` is how
/// the error is written, where there is one.
pub fn assemble_result(ctx: RunCtx, outcome: Outcome, shown: String, state: Json) -> (r: (
    WorkflowResult,
    Option<RunSnapshot>,
))
    ensures
        r.0@ == result_of(ctx@, outcome@, shown@, state@),
        r.1 is Some <==> outcome@ is Suspended,
        r.1 matches Some(s) ==> s@ == (SnapshotView {
            run_id: ctx@.run_id,
            input: ctx@.input,
            state: state@,
            outputs: ctx@.outputs,
            loops: ctx@.loops,
        }),
{
    let steps = memo::results_list(&ctx.results);
    let mut suspended: Vec<SuspendPoint> = Vec::new();
    let ghost point = ctx.suspend;
    let mut snapshot = None;
    let mut result = None;
    let mut error = None;
    let status = match outcome {
        Outcome::Value(v) => {
            result = Some(v);
            RunStatus::Success
        },
        Outcome::Suspended => {
            if let Some(p) = ctx.suspend {
                suspended.push(p);
            }
            snapshot = Some(
                RunSnapshot {
                    run_id: ctx.run_id.clone(),
                    input: ctx.input.copy(),
                    state: state.copy(),
                    outputs: memo::outputs_list(&ctx.outputs),
                    loops: ctx.loops,
                },
            );
            RunStatus::Suspended
        },
        Outcome::Failed(_) => {
            error = Some(shown);
            RunStatus::Failed
        },
    };
    let r = WorkflowResult {
        run_id: ctx.run_id,
        status,
        input: ctx.input,
        steps,
        result,
        state,
        error,
        suspended,
    };
    assert(r@.suspended =~= result_of(ctx@, outcome@, shown@, state@).suspended);
    (r, snapshot)
}

/// The error for a run that is not among the suspended ones.
pub fn no_suspended_run(run_id: &str) -> (r: CerseiError)
    ensures
        runner::fail_view(r) == runner::FailView::Config("no suspended run '"@ + run_id@ + "'"@),
{
    CerseiError::Config(text::cat3("no suspended run '", run_id, "'"))
}

// ─── Laws ────────────────────────────────────────────────────────────────────

/// Whether a node is passed over where its output is remembered: a step that is not the
/// one that is resumed, a mapping, a join, or a loop that the step to be resumed is not
/// in.
pub open spec fn passes(wf: Workflow, ctx: CtxView, node: Seq<char>) -> bool {
    match wf.kind_of(node) {
        Some(workflow::KindView::Step { .. }) => !ctx.resumes(node),
        Some(workflow::KindView::Reshape { .. }) => true,
        Some(workflow::KindView::Join { .. }) => true,
        Some(workflow::KindView::Loop { body, .. }) => !ctx.awaits_in(body_nodes(wf, body, node)),
        _ => false,
    }
}

/// A step, a mapping, a join or a loop whose output is remembered is not run again: the
/// walk goes on with that output. So a node that several ways lead to runs once, and a
/// resumed run passes over what was done before.
pub proof fn remembered_steps_are_not_run_again(
    wf: Workflow,
    node: Seq<char>,
    input: json::JsonView,
    stop_at: Option<Seq<char>>,
    frames: Seq<FrameView>,
    ctx: CtxView,
    state: json::JsonView,
)
    requires
        passes(wf, ctx, node),
        ctx.outputs.contains_key(node),
        ctx.suspend is None,
        stop_at != Some(node),
    ensures
        entered(wf, node, input, stop_at, frames, ctx, state) == going_to(
            proceeding(wf, node, ctx.outputs[node], stop_at),
            frames,
            ctx,
        ),
{
}

/// A fork whose join has an output that is remembered is passed over, to what follows
/// the join.
pub proof fn joined_forks_are_passed_over(
    wf: Workflow,
    node: Seq<char>,
    join: Seq<char>,
    input: json::JsonView,
    stop_at: Option<Seq<char>>,
    frames: Seq<FrameView>,
    ctx: CtxView,
    state: json::JsonView,
)
    requires
        wf.kind_of(node) == Some(workflow::KindView::Parallel),
        wf.join_of(workflow::fork_targets(wf.def@.edges, node)) == Some(join),
        ctx.outputs.contains_key(join),
        !ctx.awaits_in(fork_nodes(wf, workflow::fork_targets(wf.def@.edges, node), join)),
        ctx.suspend is None,
        stop_at != Some(node),
    ensures
        entered(wf, node, input, stop_at, frames, ctx, state) == going_to(
            proceeding(wf, join, ctx.outputs[join], stop_at),
            frames,
            ctx,
        ),
{
}

/// What a strand is told when it moves.
pub ghost enum Cue {
    /// The state that the steps share.
    Walk { state: json::JsonView },
    /// What came of a step, with its times.
    Step { reply: StepReply, started: i64, ended: i64 },
    /// What a condition came to, and the state.
    Answer { holds: bool, state: json::JsonView },
    /// What branches came to.
    Branches { results: Seq<OutcomeView> },
    /// What the walk on an item came to, with what it held.
    Item { idx: int, outcome: OutcomeView, child: CtxView },
    /// That the walks on all items are over.
    Items,
}

/// How a strand moves: by `advance`, `on_step`, `on_condition`, `on_branches`, `on_item`
/// or `on_items_done`.
pub open spec fn moved(wf: Workflow, strand: StrandView, ctx: CtxView, cue: Cue) -> Move {
    let frames = strand.frames;
    match (strand.place, cue) {
        (PlaceView::At { node, input, stop_at }, Cue::Walk { state }) => entered(
            wf,
            node,
            input,
            stop_at,
            frames,
            ctx,
            state,
        ),
        (PlaceView::Ended(outcome), Cue::Walk { state }) => delivered(
            wf,
            outcome,
            frames,
            ctx,
            state,
        ),
        (PlaceView::Running { node, stop_at }, Cue::Step { reply, started, ended }) => stepped(
            wf,
            node,
            stop_at,
            reply,
            started,
            ended,
            frames,
            ctx,
        ),
        (PlaceView::Arm { .. }, Cue::Answer { holds, state }) => answered(
            wf,
            strand,
            holds,
            ctx,
            state,
        ),
        (PlaceView::Turn { .. }, Cue::Answer { holds, state }) => answered(
            wf,
            strand,
            holds,
            ctx,
            state,
        ),
        (PlaceView::Forked { join, strategy, stop_at }, Cue::Branches { results }) => rejoined(
            wf,
            join,
            strategy,
            stop_at,
            results,
            frames,
            ctx,
        ),
        (
            PlaceView::Spread { node, stop_at, slots, suspended },
            Cue::Item { idx, outcome, child },
        ) => item_done(node, stop_at, slots, suspended, idx, outcome, child, frames, ctx),
        (PlaceView::Spread { node, stop_at, slots, suspended }, Cue::Items) => items_done(
            wf,
            node,
            stop_at,
            slots,
            suspended,
            frames,
            ctx,
        ),
        _ => going_to(strand.place, frames, ctx),
    }
}

/// A move in a run: a strand, what the run held, and what the strand was told.
pub ghost struct Deed {
    pub strand: StrandView,
    pub ctx: CtxView,
    pub cue: Cue,
}

impl Deed {
    /// What came of it.
    pub open spec fn done(self, wf: Workflow) -> Move {
        moved(wf, self.strand, self.ctx, self.cue)
    }

    /// Whether a loop may begin a turn by it, other than the one that it stopped in: the
    /// loop is the innermost one and is handed a value or the answer about it, or it is
    /// entered and does not go on where it stopped.
    pub open spec fn turns(self, wf: Workflow, node: Seq<char>) -> bool {
        ||| {
            &&& self.strand.frames.len() > 0
            &&& loop_of(self.strand.frames.last()).0 == node
            &&& self.strand.place is Ended || self.strand.place is Turn
        }
        ||| {
            &&& self.strand.place matches PlaceView::At { node: n, input, stop_at }
            &&& n == node && stop_at != Some(n) && self.ctx.suspend is None
            &&& !(self.ctx.outputs.contains_key(n) && passes(wf, self.ctx, n))
            &&& !goes_on(wf, self.ctx, n, input)
        }
    }
}

/// Whether a loop that is begun goes on where it stopped.
pub open spec fn goes_on(
    wf: Workflow,
    ctx: CtxView,
    node: Seq<char>,
    input: json::JsonView,
) -> bool {
    match wf.kind_of(node) {
        Some(workflow::KindView::Loop { mode: LoopMode::ForEach { concurrency }, .. }) => {
            &&& concurrency <= 1
            &&& input matches json::JsonView::Array(items) && ctx.stopped_at(node, items) is Some
        },
        Some(workflow::KindView::Loop { .. }) => ctx.stopped_after(node) is Some,
        _ => false,
    }
}

/// Moves of one run, of whichever of its strands, in the order they were made. What the
/// run holds is passed on from move to move; a strand is new and in no loop, or an
/// earlier move left it in its loops.
pub open spec fn is_run(wf: Workflow, start: CtxView, deeds: Seq<Deed>) -> bool {
    &&& deeds.len() > 0 ==> deeds[0].ctx == start
    &&& forall|i: int, j: int|
        0 <= i && j == i + 1 && j < deeds.len() ==> (#[trigger] deeds[j]).ctx == (
        #[trigger] deeds[i]).done(wf).ctx
    &&& forall|i: int|
        0 <= i < deeds.len() ==> (#[trigger] deeds[i]).strand.frames.len() == 0
            || exists|j: int|
            0 <= j < i && (#[trigger] deeds[j]).done(wf).frames == deeds[i].strand.frames
}

/// Nodes whose outputs are remembered for good: none of them is the step that is
/// resumed, and a loop around one of them is among them too and not the loop that the
/// step is in, or is among those that are under way.
pub open spec fn lasting(
    wf: Workflow,
    ctx: CtxView,
    kept: Set<Seq<char>>,
    under_way: Set<Seq<char>>,
) -> bool {
    &&& forall|n: Seq<char>| #[trigger]
        kept.contains(n) ==> ctx.outputs.contains_key(n) && !ctx.resumes(n)
    &&& forall|n: Seq<char>, l: Seq<char>|
        #![trigger kept.contains(n), wf.kind_of(l)]
        kept.contains(n) && around(wf, l, n) && !under_way.contains(l) ==> kept.contains(l)
            && passes(wf, ctx, l)
}

/// A node is in the body of a loop.
pub open spec fn around(wf: Workflow, l: Seq<char>, n: Seq<char>) -> bool {
    wf.kind_of(l) matches Some(workflow::KindView::Loop { body, .. }) && body_nodes(
        wf,
        body,
        l,
    ).contains(n)
}

/// None of these loops, but for those that are under way, has one of the nodes in its
/// body.
spec fn clear_of(
    wf: Workflow,
    frames: Seq<FrameView>,
    kept: Set<Seq<char>>,
    under_way: Set<Seq<char>>,
) -> bool {
    forall|i: int, n: Seq<char>|
        #![trigger frames[i], kept.contains(n)]
        0 <= i < frames.len() && kept.contains(n) && !under_way.contains(loop_of(frames[i]).0)
            ==> !body_nodes(wf, loop_of(frames[i]).1, loop_of(frames[i]).0).contains(n)
}

proof fn lemma_lasting_after(
    wf: Workflow,
    ctx: CtxView,
    after: CtxView,
    kept: Set<Seq<char>>,
    under_way: Set<Seq<char>>,
)
    requires
        lasting(wf, ctx, kept, under_way),
        after.resume == ctx.resume,
        forall|n: Seq<char>| #[trigger]
            ctx.results.contains_key(n) ==> after.results.contains_key(n),
        forall|n: Seq<char>| #[trigger] kept.contains(n) ==> after.outputs.contains_key(n),
    ensures
        lasting(wf, after, kept, under_way),
{
}

proof fn lemma_turn_keeps(
    wf: Workflow,
    ctx: CtxView,
    body: Seq<char>,
    node: Seq<char>,
    kept: Set<Seq<char>>,
    under_way: Set<Seq<char>>,
)
    requires
        lasting(wf, ctx, kept, under_way),
        forall|n: Seq<char>| #[trigger]
            kept.contains(n) ==> !body_nodes(wf, body, node).contains(n),
    ensures
        lasting(wf, forgetting(wf, ctx, body, node), kept, under_way),
{
    lemma_lasting_after(wf, ctx, forgetting(wf, ctx, body, node), kept, under_way);
}

proof fn lemma_clear_of_more(
    wf: Workflow,
    frames: Seq<FrameView>,
    f: FrameView,
    kept: Set<Seq<char>>,
    under_way: Set<Seq<char>>,
)
    requires
        clear_of(wf, frames, kept, under_way),
        under_way.contains(loop_of(f).0) || forall|n: Seq<char>| #[trigger]
            kept.contains(n) ==> !body_nodes(wf, loop_of(f).1, loop_of(f).0).contains(n),
    ensures
        clear_of(wf, frames.push(f), kept, under_way),
{
    let more = frames.push(f);
    assert forall|i: int, n: Seq<char>|
        #![trigger more[i], kept.contains(n)]
        0 <= i < more.len() && kept.contains(n) && !under_way.contains(
            loop_of(more[i]).0,
        ) implies !body_nodes(wf, loop_of(more[i]).1, loop_of(more[i]).0).contains(n) by {
        if i < frames.len() {
            assert(more[i] == frames[i]);
        } else {
            assert(more[i] == f);
        }
    }
}

proof fn lemma_entering_keeps(
    wf: Workflow,
    node: Seq<char>,
    input: json::JsonView,
    stop_at: Option<Seq<char>>,
    frames: Seq<FrameView>,
    ctx: CtxView,
    state: json::JsonView,
    kept: Set<Seq<char>>,
    under_way: Set<Seq<char>>,
)
    requires
        lasting(wf, ctx, kept, under_way),
        clear_of(wf, frames, kept, under_way),
        under_way.contains(node) && stop_at != Some(node) && ctx.suspend is None ==> goes_on(
            wf,
            ctx,
            node,
            input,
        ) || (ctx.outputs.contains_key(node) && passes(wf, ctx, node)),
    ensures
        ({
            let m = entered(wf, node, input, stop_at, frames, ctx, state);
            &&& lasting(wf, m.ctx, kept, under_way)
            &&& clear_of(wf, m.frames, kept, under_way)
            &&& m.action matches ActionView::Run { node: n, .. } ==> !kept.contains(n)
        }),
{
    let m = entered(wf, node, input, stop_at, frames, ctx, state);
    if stop_at != Some(node) && ctx.suspend is None {
        if let Some(workflow::KindView::Loop { mode, body, condition }) = wf.kind_of(node) {
            if ctx.outputs.contains_key(node) && !ctx.awaits_in(body_nodes(wf, body, node)) {
            } else {
                if !under_way.contains(node) {
                    assert forall|n: Seq<char>| #[trigger] kept.contains(n) implies !body_nodes(
                        wf,
                        body,
                        node,
                    ).contains(n) by {
                        if body_nodes(wf, body, node).contains(n) {
                            assert(around(wf, node, n));
                            assert(kept.contains(node) && passes(wf, ctx, node));
                        }
                    }
                    lemma_lasting_after(wf, ctx, ctx.past(node), kept, under_way);
                    lemma_turn_keeps(wf, ctx.past(node), body, node, kept, under_way);
                }
                lemma_lasting_after(wf, ctx, m.ctx, kept, under_way);
                if m.frames.len() > frames.len() {
                    assert(m.frames =~= frames.push(m.frames.last()));
                    lemma_clear_of_more(wf, frames, m.frames.last(), kept, under_way);
                }
            }
        } else {
            lemma_lasting_after(wf, ctx, m.ctx, kept, under_way);
        }
    }
}

proof fn lemma_delivering_keeps(
    wf: Workflow,
    outcome: OutcomeView,
    frames: Seq<FrameView>,
    ctx: CtxView,
    state: json::JsonView,
    kept: Set<Seq<char>>,
    under_way: Set<Seq<char>>,
)
    requires
        lasting(wf, ctx, kept, under_way),
        clear_of(wf, frames, kept, under_way),
        frames.len() > 0 ==> !under_way.contains(loop_of(frames.last()).0),
    ensures
        ({
            let m = delivered(wf, outcome, frames, ctx, state);
            &&& lasting(wf, m.ctx, kept, under_way)
            &&& clear_of(wf, m.frames, kept, under_way)
            &&& !(m.action is Run)
        }),
{
    let m = delivered(wf, outcome, frames, ctx, state);
    if frames.len() > 0 {
        let outer = frames.drop_last();
        let (node, body) = loop_of(frames.last());
        lemma_outer_is_clear(wf, frames, kept, under_way);
        lemma_turn_keeps(wf, ctx, body, node, kept, under_way);
        if m.frames.len() > outer.len() {
            assert(m.frames =~= outer.push(m.frames.last()));
            assert(loop_of(m.frames.last()) == loop_of(frames.last()));
            lemma_clear_of_more(wf, outer, m.frames.last(), kept, under_way);
        } else {
            lemma_lasting_after(wf, ctx, m.ctx, kept, under_way);
        }
    }
}

proof fn lemma_outer_is_clear(
    wf: Workflow,
    frames: Seq<FrameView>,
    kept: Set<Seq<char>>,
    under_way: Set<Seq<char>>,
)
    requires
        frames.len() > 0,
        clear_of(wf, frames, kept, under_way),
    ensures
        clear_of(wf, frames.drop_last(), kept, under_way),
        forall|n: Seq<char>| #[trigger]
            kept.contains(n) && !under_way.contains(loop_of(frames.last()).0) ==> !body_nodes(
                wf,
                loop_of(frames.last()).1,
                loop_of(frames.last()).0,
            ).contains(n),
{
    let outer = frames.drop_last();
    assert forall|i: int, n: Seq<char>|
        #![trigger outer[i], kept.contains(n)]
        0 <= i < outer.len() && kept.contains(n) && !under_way.contains(
            loop_of(outer[i]).0,
        ) implies !body_nodes(wf, loop_of(outer[i]).1, loop_of(outer[i]).0).contains(n) by {
        assert(outer[i] == frames[i]);
    }
    assert(frames.last() == frames[frames.len() - 1]);
}

proof fn lemma_answering_keeps(
    wf: Workflow,
    strand: StrandView,
    holds: bool,
    ctx: CtxView,
    state: json::JsonView,
    kept: Set<Seq<char>>,
    under_way: Set<Seq<char>>,
)
    requires
        lasting(wf, ctx, kept, under_way),
        clear_of(wf, strand.frames, kept, under_way),
        strand.place is Arm || strand.place is Turn,
        strand.place is Turn && strand.frames.len() > 0 ==> !under_way.contains(
            loop_of(strand.frames.last()).0,
        ),
        strand.place is Turn ==> strand.frames.len() > 0,
    ensures
        ({
            let m = answered(wf, strand, holds, ctx, state);
            &&& lasting(wf, m.ctx, kept, under_way)
            &&& clear_of(wf, m.frames, kept, under_way)
            &&& !(m.action is Run)
        }),
{
    let m = answered(wf, strand, holds, ctx, state);
    if strand.place is Turn {
        let frames = strand.frames;
        let outer = frames.drop_last();
        let (node, body) = loop_of(frames.last());
        lemma_outer_is_clear(wf, frames, kept, under_way);
        lemma_turn_keeps(wf, ctx, body, node, kept, under_way);
        if frames.last() is Do {
            if m.frames.len() > outer.len() {
                assert(m.frames =~= outer.push(m.frames.last()));
                lemma_clear_of_more(wf, outer, m.frames.last(), kept, under_way);
            } else {
                lemma_lasting_after(wf, ctx, m.ctx, kept, under_way);
            }
        }
    }
}

proof fn lemma_moving_keeps(
    wf: Workflow,
    deed: Deed,
    kept: Set<Seq<char>>,
    under_way: Set<Seq<char>>,
)
    requires
        lasting(wf, deed.ctx, kept, under_way),
        clear_of(wf, deed.strand.frames, kept, under_way),
        deed.strand.valid(wf),
        forall|l: Seq<char>| #[trigger] under_way.contains(l) ==> !deed.turns(wf, l),
    ensures
        lasting(wf, deed.done(wf).ctx, kept, under_way),
        clear_of(wf, deed.done(wf).frames, kept, under_way),
        deed.done(wf).action matches ActionView::Run { node, .. } ==> !kept.contains(node),
{
    let m = deed.done(wf);
    let frames = deed.strand.frames;
    match (deed.strand.place, deed.cue) {
        (PlaceView::At { node, input, stop_at }, Cue::Walk { state }) => {
            if under_way.contains(node) {
                assert(!deed.turns(wf, node));
            }
            lemma_entering_keeps(
                wf,
                node,
                input,
                stop_at,
                frames,
                deed.ctx,
                state,
                kept,
                under_way,
            );
        },
        (PlaceView::Ended(outcome), Cue::Walk { state }) => {
            if frames.len() > 0 {
                assert(deed.turns(wf, loop_of(frames.last()).0));
            }
            lemma_delivering_keeps(wf, outcome, frames, deed.ctx, state, kept, under_way);
        },
        (PlaceView::Arm { .. }, Cue::Answer { holds, state }) => lemma_answering_keeps(
            wf,
            deed.strand,
            holds,
            deed.ctx,
            state,
            kept,
            under_way,
        ),
        (PlaceView::Turn { .. }, Cue::Answer { holds, state }) => {
            assert(deed.turns(wf, loop_of(frames.last()).0));
            lemma_answering_keeps(wf, deed.strand, holds, deed.ctx, state, kept, under_way);
        },
        _ => lemma_lasting_after(wf, deed.ctx, m.ctx, kept, under_way),
    }
}

/// What was remembered when a run was resumed is not run again. Take any moves of the
/// run, of whichever strands, and nodes whose outputs are remembered at the start, each
/// with the loops around it but for those that were under way. Until a loop that was
/// under way begins another turn than the one it stopped in, they stay remembered, and
/// no move runs one of them. Where no loop was under way that holds to the end.
pub proof fn a_run_passes_over_what_was_done(
    wf: Workflow,
    start: CtxView,
    deeds: Seq<Deed>,
    kept: Set<Seq<char>>,
    under_way: Set<Seq<char>>,
    i: int,
)
    requires
        is_run(wf, start, deeds),
        lasting(wf, start, kept, under_way),
        0 <= i < deeds.len(),
        forall|k: int| 0 <= k <= i ==> (#[trigger] deeds[k]).strand.valid(wf),
        forall|k: int, l: Seq<char>|
            0 <= k <= i && under_way.contains(l) ==> !(#[trigger] deeds[k].turns(wf, l)),
    ensures
        forall|n: Seq<char>| #[trigger]
            kept.contains(n) ==> deeds[i].ctx.outputs.contains_key(n) && deeds[i].done(
                wf,
            ).ctx.outputs.contains_key(n),
        deeds[i].done(wf).action matches ActionView::Run { node, .. } ==> !kept.contains(node),
{
    lemma_run_keeps(wf, start, deeds, kept, under_way, i);
}

proof fn lemma_run_keeps(
    wf: Workflow,
    start: CtxView,
    deeds: Seq<Deed>,
    kept: Set<Seq<char>>,
    under_way: Set<Seq<char>>,
    i: int,
)
    requires
        is_run(wf, start, deeds),
        lasting(wf, start, kept, under_way),
        0 <= i < deeds.len(),
        forall|k: int| 0 <= k <= i ==> (#[trigger] deeds[k]).strand.valid(wf),
        forall|k: int, l: Seq<char>|
            0 <= k <= i && under_way.contains(l) ==> !(#[trigger] deeds[k].turns(wf, l)),
    ensures
        forall|k: int|
            0 <= k <= i ==> clear_of(
                wf,
                (#[trigger] deeds[k]).done(wf).frames,
                kept,
                under_way,
            ),
        lasting(wf, deeds[i].ctx, kept, under_way),
        lasting(wf, deeds[i].done(wf).ctx, kept, under_way),
        deeds[i].done(wf).action matches ActionView::Run { node, .. } ==> !kept.contains(node),
    decreases i,
{
    if i > 0 {
        lemma_run_keeps(wf, start, deeds, kept, under_way, i - 1);
        assert(deeds[i].ctx == deeds[i - 1].done(wf).ctx);
    }
    let deed = deeds[i];
    assert(lasting(wf, deed.ctx, kept, under_way));
    assert(clear_of(wf, deed.strand.frames, kept, under_way)) by {
        if deed.strand.frames.len() > 0 {
            let j = choose|j: int|
                0 <= j < i && (#[trigger] deeds[j]).done(wf).frames == deed.strand.frames;
            assert(clear_of(wf, deeds[j].done(wf).frames, kept, under_way));
        }
    }
    lemma_moving_keeps(wf, deed, kept, under_way);
}

/// A run has one id, one input and one step that is resumed, from its first move to its
/// last.
pub proof fn a_run_keeps_its_id_and_input(
    wf: Workflow,
    start: CtxView,
    deeds: Seq<Deed>,
    i: int,
)
    requires
        is_run(wf, start, deeds),
        0 <= i < deeds.len(),
    ensures
        deeds[i].done(wf).ctx.run_id == start.run_id,
        deeds[i].done(wf).ctx.input == start.input,
        deeds[i].done(wf).ctx.resume == start.resume,
    decreases i,
{
    if i > 0 {
        a_run_keeps_its_id_and_input(wf, start, deeds, i - 1);
        assert(deeds[i].ctx == deeds[i - 1].done(wf).ctx);
    }
}

/// The walks on the items of a loop begin with what was remembered, too.
pub proof fn items_begin_with_what_was_done(
    wf: Workflow,
    l: Seq<char>,
    body: Seq<char>,
    ctx: CtxView,
    child: CtxView,
    kept: Set<Seq<char>>,
)
    requires
        lasting(wf, ctx, kept, Set::empty()),
        wf.kind_of(l) matches Some(workflow::KindView::Loop { body: b, .. }) && b == body,
        !ctx.outputs.contains_key(l) || ctx.awaits_in(body_nodes(wf, body, l)),
        child == (CtxView {
            results: Map::empty(),
            loops: Map::empty(),
            resume: None,
            suspend: None,
            ..forgetting(wf, ctx, body, l)
        }),
    ensures
        lasting(wf, child, kept, Set::empty()),
{
    assert forall|n: Seq<char>| #[trigger] kept.contains(n) implies !body_nodes(
        wf,
        body,
        l,
    ).contains(n) by {
        if body_nodes(wf, body, l).contains(n) {
            assert(around(wf, l, n));
            assert(kept.contains(l) && passes(wf, ctx, l));
        }
    }
    lemma_turn_keeps(wf, ctx, body, l, kept, Set::empty());
}

/// The step that is resumed is run, with the data for it, though an output of it may be
/// remembered.
pub proof fn the_resumed_step_is_run_with_its_data(
    wf: Workflow,
    node: Seq<char>,
    input: json::JsonView,
    data: json::JsonView,
    stop_at: Option<Seq<char>>,
    frames: Seq<FrameView>,
    ctx: CtxView,
    state: json::JsonView,
)
    requires
        wf.kind_of(node) matches Some(workflow::KindView::Step { step_id, .. }) && wf.knows(step_id),
        ctx.resume == Some((node, data)),
        ctx.suspend is None,
        stop_at != Some(node),
    ensures
        entered(wf, node, input, stop_at, frames, ctx, state).action matches ActionView::Run {
            node: n,
            resume_data,
            ..
        } && n == node && resume_data == Some(data),
{
}

/// Nothing is begun in a run that was suspended.
pub proof fn nothing_begins_after_a_suspension(
    wf: Workflow,
    node: Seq<char>,
    input: json::JsonView,
    stop_at: Option<Seq<char>>,
    frames: Seq<FrameView>,
    ctx: CtxView,
    state: json::JsonView,
)
    requires
        ctx.suspend is Some,
        stop_at != Some(node),
    ensures
        entered(wf, node, input, stop_at, frames, ctx, state) == ending(
            OutcomeView::Suspended,
            frames,
            ctx,
        ),
{
}

/// Replaying a step leads to where running it led: after a step gave its output, to
/// enter it again has the same effect as that output.
pub proof fn replaying_is_running(
    wf: Workflow,
    node: Seq<char>,
    input: json::JsonView,
    stop_at: Option<Seq<char>>,
    output: Json,
    started: i64,
    ended: i64,
    frames: Seq<FrameView>,
    ctx: CtxView,
    state: json::JsonView,
)
    requires
        wf.kind_of(node) matches Some(k) && k is Step,
        !ctx.resumes(node),
        ctx.suspend is None,
        stop_at != Some(node),
    ensures
        ({
            let ran = stepped(
                wf,
                node,
                stop_at,
                StepReply::Done(output),
                started,
                ended,
                frames,
                ctx,
            );
            let replayed = entered(wf, node, input, stop_at, frames, ran.ctx, state);
            replayed.place == ran.place && replayed.ctx == ran.ctx && replayed.action is Go
        }),
{
}

/// What is kept of a suspended run is all that a resumed run needs: it remembers what
/// the suspended one remembered.
pub proof fn snapshots_hold_what_was_remembered(
    kept: SnapshotView,
    ctx: CtxView,
    resumed: CtxView,
    node: Seq<char>,
    data: json::JsonView,
    state: json::JsonView,
)
    requires
        kept == (SnapshotView {
            run_id: ctx.run_id,
            input: ctx.input,
            state,
            outputs: ctx.outputs,
            loops: ctx.loops,
        }),
        resumed == (CtxView {
            run_id: kept.run_id,
            input: kept.input,
            outputs: kept.outputs,
            results: Map::empty(),
            loops: kept.loops,
            resume: Some((node, data)),
            suspend: None,
        }),
    ensures
        resumed.outputs == ctx.outputs,
        resumed.loops == ctx.loops,
        resumed.input == ctx.input,
        forall|current: json::JsonView| #[trigger]
            scope_of(resumed, kept.state, current) == scope_of(ctx, state, current),
{
}

/// Where every branch gave a value, the join has them all, in the order of the branches.
pub proof fn branch_values_keep_their_order(results: Seq<OutcomeView>, strategy: JoinStrategy)
    requires
        forall|i: int| 0 <= i < results.len() ==> (#[trigger] results[i]) is Value,
    ensures
        settled(results, strategy) == OutcomeView::Value(
            json::JsonView::Array(
                Seq::new(results.len(), |i: int| results[i]->Value_0),
            ),
        ),
    decreases results.len(),
{
    let want = Seq::new(results.len(), |i: int| results[i]->Value_0);
    if results.len() == 0 {
        assert(want =~= Seq::<json::JsonView>::empty());
    } else {
        let before = results.drop_last();
        assert forall|i: int| 0 <= i < before.len() implies (#[trigger] before[i]) is Value by {
            assert(before[i] == results[i]);
        }
        branch_values_keep_their_order(before, strategy);
        assert(results[results.len() - 1] is Value);
        let init = Seq::new(before.len(), |i: int| before[i]->Value_0);
        assert(want =~= init.push(results.last()->Value_0));
    }
}

/// A join that only waits for its branches does not fail: a branch that failed gives
/// null, in its place.
pub proof fn waiting_joins_do_not_fail(results: Seq<OutcomeView>)
    requires
        forall|i: int| 0 <= i < results.len() ==> !((#[trigger] results[i]) is Suspended),
    ensures
        settled(results, JoinStrategy::AllSettled) == OutcomeView::Value(
            json::JsonView::Array(
                Seq::new(
                    results.len(),
                    |i: int|
                        if results[i] is Value {
                            results[i]->Value_0
                        } else {
                            json::JsonView::Null
                        },
                ),
            ),
        ),
    decreases results.len(),
{
    let want = Seq::new(
        results.len(),
        |i: int|
            if results[i] is Value {
                results[i]->Value_0
            } else {
                json::JsonView::Null
            },
    );
    if results.len() == 0 {
        assert(want =~= Seq::<json::JsonView>::empty());
    } else {
        let before = results.drop_last();
        assert forall|i: int| 0 <= i < before.len() implies !((#[trigger] before[i])
            is Suspended) by {
            assert(before[i] == results[i]);
        }
        waiting_joins_do_not_fail(before);
        assert(!(results[results.len() - 1] is Suspended));
        let init = Seq::new(
            before.len(),
            |i: int|
                if before[i] is Value {
                    before[i]->Value_0
                } else {
                    json::JsonView::Null
                },
        );
        assert(want =~= init.push(want[want.len() - 1]));
    }
}

/// The first branch that did not give a value decides, where all must succeed: the whole
/// comes to what that branch came to.
pub proof fn the_first_branch_without_a_value_decides(results: Seq<OutcomeView>, n: int)
    requires
        0 <= n < results.len(),
        !(results[n] is Value),
        forall|i: int| 0 <= i < n ==> (#[trigger] results[i]) is Value,
    ensures
        settled(results, JoinStrategy::AllOrFail) == results[n],
{
    let upto = results.take(n + 1);
    let before = results.take(n);
    assert(upto.drop_last() =~= before);
    assert(upto.last() == results[n]);
    assert forall|i: int| 0 <= i < before.len() implies (#[trigger] before[i]) is Value by {
        assert(before[i] == results[i]);
    }
    branch_values_keep_their_order(before, JoinStrategy::AllOrFail);
    lemma_settled_early(results, JoinStrategy::AllOrFail, n + 1);
}

/// A loop over items that are walked at the same time gives their values in the order of
/// the items, whatever the order they came in.
pub proof fn item_values_keep_their_order(slots: Seq<Option<json::JsonView>>)
    requires
        forall|i: int| 0 <= i < slots.len() ==> (#[trigger] slots[i]) is Some,
    ensures
        present(slots) == Seq::new(slots.len(), |i: int| slots[i]->0),
    decreases slots.len(),
{
    let want = Seq::new(slots.len(), |i: int| slots[i]->0);
    if slots.len() == 0 {
        assert(want =~= Seq::<json::JsonView>::empty());
    } else {
        let before = slots.drop_last();
        assert forall|i: int| 0 <= i < before.len() implies (#[trigger] before[i]) is Some by {
            assert(before[i] == slots[i]);
        }
        item_values_keep_their_order(before);
        assert(slots[slots.len() - 1] is Some);
        assert(want =~= Seq::new(before.len(), |i: int| before[i]->0).push(slots.last()->0));
    }
}

/// It does not matter which of two items comes to its end first.
pub proof fn items_may_end_in_any_order(
    slots: Seq<Option<json::JsonView>>,
    i: int,
    v: json::JsonView,
    j: int,
    w: json::JsonView,
)
    requires
        0 <= i < slots.len(),
        0 <= j < slots.len(),
        i != j,
    ensures
        slots.update(i, Some(v)).update(j, Some(w)) == slots.update(j, Some(w)).update(i, Some(v)),
{
    assert(slots.update(i, Some(v)).update(j, Some(w)) =~= slots.update(j, Some(w)).update(
        i,
        Some(v),
    ));
}

/// The end of the walk on an item: which item, what the walk came to, and what it held.
pub ghost struct ItemEnd {
    pub idx: int,
    pub outcome: OutcomeView,
    pub child: CtxView,
}

/// Where items that are walked at the same time have led to, after the walks on some of
/// them came to their ends, in this order. After an error the loop has ended.
pub open spec fn after_items(m: Move, ends: Seq<ItemEnd>) -> Move
    decreases ends.len(),
{
    if ends.len() == 0 {
        m
    } else {
        let before = after_items(m, ends.drop_last());
        let end = ends.last();
        match before.place {
            PlaceView::Spread { node, stop_at, slots, suspended } => item_done(
                node,
                stop_at,
                slots,
                suspended,
                end.idx,
                end.outcome,
                end.child,
                before.frames,
                before.ctx,
            ),
            _ => before,
        }
    }
}

/// What a loop comes to whose items are walked at the same time, after the walks came to
/// their ends in this order.
pub open spec fn spread_done(wf: Workflow, m: Move, ends: Seq<ItemEnd>) -> Move {
    let last = after_items(m, ends);
    match last.place {
        PlaceView::Spread { node, stop_at, slots, suspended } => items_done(
            wf,
            node,
            stop_at,
            slots,
            suspended,
            last.frames,
            last.ctx,
        ),
        _ => last,
    }
}

/// Where a loop is that walks its items one by one, after it began at the item `from`
/// and the walks on the items from there to before `k` gave these values. What the run
/// held at the end of each walk is in `held`.
pub open spec fn one_by_one(
    wf: Workflow,
    m: Move,
    values: Seq<json::JsonView>,
    held: Seq<CtxView>,
    state: json::JsonView,
    from: int,
    k: int,
) -> Move
    decreases k - from,
{
    if k <= from {
        m
    } else {
        delivered(
            wf,
            OutcomeView::Value(values[k - 1]),
            one_by_one(wf, m, values, held, state, from, k - 1).frames,
            held[k - 1],
            state,
        )
    }
}

/// The walk on an item has come to its end.
pub open spec fn ended(ends: Seq<ItemEnd>, i: int) -> bool {
    exists|k: int| 0 <= k < ends.len() && (#[trigger] ends[k]).idx == i
}

/// Every item has come to its end, and none twice.
pub open spec fn covers(ends: Seq<ItemEnd>, n: int) -> bool {
    &&& forall|k: int| 0 <= k < ends.len() ==> 0 <= (#[trigger] ends[k]).idx < n
    &&& forall|i: int| 0 <= i < n ==> #[trigger] ended(ends, i)
    &&& forall|j: int, k: int|
        #![trigger ends[j], ends[k]]
        0 <= j < k < ends.len() ==> ends[j].idx != ends[k].idx
}

proof fn lemma_slots_fill(
    m: Move,
    ends: Seq<ItemEnd>,
    values: Seq<json::JsonView>,
)
    requires
        m.place matches PlaceView::Spread { slots, suspended, .. } && suspended is None
            && slots == Seq::new(values.len(), |i: int| None::<json::JsonView>),
        forall|k: int|
            0 <= k < ends.len() ==> 0 <= (#[trigger] ends[k]).idx < values.len()
                && ends[k].outcome == OutcomeView::Value(values[ends[k].idx]),
    ensures
        ({
            let r = after_items(m, ends);
            &&& r.frames == m.frames
            &&& r.ctx.outputs == m.ctx.outputs
            &&& m.place matches PlaceView::Spread { node: n, stop_at: s, .. }
            &&& r.place matches PlaceView::Spread { node, stop_at, slots, suspended }
            &&& node == n && stop_at == s && suspended is None
            &&& slots.len() == values.len()
            &&& forall|i: int|
                0 <= i < values.len() ==> #[trigger] slots[i] == if ended(ends, i) {
                    Some(values[i])
                } else {
                    None
                }
        }),
    decreases ends.len(),
{
    if ends.len() > 0 {
        let before = ends.drop_last();
        let end = ends.last();
        assert(ends[ends.len() - 1] == end);
        assert forall|k: int| 0 <= k < before.len() implies 0 <= (#[trigger] before[k]).idx
            < values.len() && before[k].outcome == OutcomeView::Value(
            values[before[k].idx],
        ) by {
            assert(before[k] == ends[k]);
        }
        lemma_slots_fill(m, before, values);
        let old_slots = after_items(m, before).place->Spread_slots;
        let slots = after_items(m, ends).place->Spread_slots;
        assert(slots == old_slots.update(end.idx, Some(values[end.idx])));
        assert forall|i: int| 0 <= i < values.len() implies #[trigger] slots[i] == if ended(
            ends,
            i,
        ) {
            Some(values[i])
        } else {
            None
        } by {
            if i == end.idx {
                assert(ends[ends.len() - 1].idx == i);
            } else {
                assert(slots[i] == old_slots[i]);
                if ended(before, i) {
                    let k = choose|k: int| 0 <= k < before.len() && (#[trigger] before[k]).idx == i;
                    assert(ends[k].idx == i);
                } else if ended(ends, i) {
                    let k = choose|k: int| 0 <= k < ends.len() && (#[trigger] ends[k]).idx == i;
                    assert(before[k].idx == i);
                }
            }
        }
    }
}

proof fn lemma_one_by_one(
    wf: Workflow,
    node: Seq<char>,
    body: Seq<char>,
    stop_at: Option<Seq<char>>,
    items: Seq<json::JsonView>,
    frames: Seq<FrameView>,
    m: Move,
    values: Seq<json::JsonView>,
    held: Seq<CtxView>,
    state: json::JsonView,
    from: int,
    k: int,
)
    requires
        values.len() == items.len(),
        0 <= from < k <= items.len(),
        m.frames == frames.push(
            FrameView::Each {
                node,
                body,
                stop_at,
                items,
                next: from + 1,
                collected: values.take(from),
            },
        ),
    ensures
        one_by_one(wf, m, values, held, state, from, k) == each_turn(
            wf,
            node,
            body,
            stop_at,
            items,
            k,
            values.take(k),
            frames,
            held[k - 1],
        ),
    decreases k,
{
    if k > from + 1 {
        lemma_one_by_one(
            wf,
            node,
            body,
            stop_at,
            items,
            frames,
            m,
            values,
            held,
            state,
            from,
            k - 1,
        );
    }
    let inner = one_by_one(wf, m, values, held, state, from, k - 1).frames;
    assert(inner.drop_last() =~= frames);
    assert(values.take(k - 1).push(values[k - 1]) =~= values.take(k));
}

/// A loop over items that stopped goes on at the item where it did, with the values
/// before it: where the items from there on give values too, it comes to the array of
/// the values of all items, in their order.
pub proof fn a_stopped_loop_gives_the_values_of_all_items(
    wf: Workflow,
    node: Seq<char>,
    body: Seq<char>,
    stop_at: Option<Seq<char>>,
    items: Seq<json::JsonView>,
    frames: Seq<FrameView>,
    ctx: CtxView,
    values: Seq<json::JsonView>,
    held: Seq<CtxView>,
    state: json::JsonView,
    from: int,
)
    requires
        values.len() == items.len(),
        0 <= from < items.len(),
        ctx.loops.contains_key(node),
        ctx.loops[node] == (memo::ProgressView::Each { values: values.take(from) }),
    ensures
        ({
            let m = loop_begun(
                wf,
                node,
                LoopMode::ForEach { concurrency: 1 },
                body,
                None,
                json::JsonView::Array(items),
                stop_at,
                frames,
                ctx,
            );
            let output = json::JsonView::Array(values);
            let end = one_by_one(wf, m, values, held, state, from, items.len() as int);
            &&& m.place == (PlaceView::At { node: body, input: items[from], stop_at: Some(node) })
            &&& m.ctx.outputs == ctx.outputs
            &&& end.place == proceeding(wf, node, output, stop_at)
            &&& end.frames == frames
            &&& end.ctx.outputs.contains_key(node) && end.ctx.outputs[node] == output
        }),
{
    let m = loop_begun(
        wf,
        node,
        LoopMode::ForEach { concurrency: 1 },
        body,
        None,
        json::JsonView::Array(items),
        stop_at,
        frames,
        ctx,
    );
    lemma_one_by_one(
        wf,
        node,
        body,
        stop_at,
        items,
        frames,
        m,
        values,
        held,
        state,
        from,
        items.len() as int,
    );
    assert(values.take(items.len() as int) =~= values);
}

/// A loop that a run is suspended in goes on, when it is entered again, in the turn that
/// it was in: with the same frame and the same input for its body, and nothing of that
/// turn forgotten.
pub proof fn a_stopped_loop_goes_on_where_it_stopped(
    wf: Workflow,
    mode: LoopMode,
    f: FrameView,
    outer: Seq<FrameView>,
    input: json::JsonView,
    frames: Seq<FrameView>,
    ctx: CtxView,
    resumed: CtxView,
    state: json::JsonView,
)
    requires
        frame_ok(f, false),
        resumed.loops.contains_key(loop_of(f).0),
        resumed.loops[loop_of(f).0] == delivered(
            wf,
            OutcomeView::Suspended,
            outer.push(f),
            ctx,
            state,
        ).ctx.loops[loop_of(f).0],
        match f {
            FrameView::Each { items, .. } => {
                &&& mode matches LoopMode::ForEach { concurrency }
                &&& concurrency <= 1
                &&& input == json::JsonView::Array(items)
            },
            FrameView::Do { going, .. } => !(mode is ForEach) && going == (mode is DoWhile),
        },
    ensures
        ({
            let condition = match f {
                FrameView::Each { .. } => None,
                FrameView::Do { condition, .. } => condition,
            };
            let stop_at = match f {
                FrameView::Each { stop_at, .. } => stop_at,
                FrameView::Do { stop_at, .. } => stop_at,
            };
            let (node, body) = loop_of(f);
            loop_begun(wf, node, mode, body, condition, input, stop_at, frames, resumed)
                == going_to(
                PlaceView::At {
                    node: body,
                    input: match f {
                        FrameView::Each { items, next, .. } => items[next - 1],
                        FrameView::Do { begun, .. } => begun,
                    },
                    stop_at: Some(node),
                },
                frames.push(f),
                resumed.past(node),
            )
        }),
{
    assert(outer.push(f).last() == f);
}

/// Where every item gives a value, a loop that walks items at the same time comes to the
/// array of the values in the order of the items, whatever the order in which the walks
/// came to their ends; and so does a loop that walks them one by one.
pub proof fn items_together_are_items_one_by_one(
    wf: Workflow,
    node: Seq<char>,
    body: Seq<char>,
    stop_at: Option<Seq<char>>,
    items: Seq<json::JsonView>,
    concurrency: usize,
    frames: Seq<FrameView>,
    ctx: CtxView,
    ends: Seq<ItemEnd>,
    values: Seq<json::JsonView>,
    held: Seq<CtxView>,
    state: json::JsonView,
)
    requires
        concurrency > 1,
        !ctx.loops.contains_key(node),
        values.len() == items.len(),
        covers(ends, items.len() as int),
        forall|k: int|
            0 <= k < ends.len() ==> (#[trigger] ends[k]).outcome == OutcomeView::Value(
                values[ends[k].idx],
            ),
    ensures
        ({
            let input = json::JsonView::Array(items);
            let output = json::JsonView::Array(values);
            let together = spread_done(
                wf,
                loop_begun(
                    wf,
                    node,
                    LoopMode::ForEach { concurrency },
                    body,
                    None,
                    input,
                    stop_at,
                    frames,
                    ctx,
                ),
                ends,
            );
            let alone = one_by_one(
                wf,
                loop_begun(
                    wf,
                    node,
                    LoopMode::ForEach { concurrency: 1 },
                    body,
                    None,
                    input,
                    stop_at,
                    frames,
                    ctx,
                ),
                values,
                held,
                state,
                0,
                items.len() as int,
            );
            &&& together.place == proceeding(wf, node, output, stop_at)
            &&& together.frames == frames
            &&& together.ctx.outputs == ctx.outputs.insert(node, output)
            &&& alone.place == together.place
            &&& alone.frames == together.frames
            &&& alone.ctx.outputs.contains_key(node) && alone.ctx.outputs[node] == output
        }),
{
    let m = loop_begun(
        wf,
        node,
        LoopMode::ForEach { concurrency },
        body,
        None,
        json::JsonView::Array(items),
        stop_at,
        frames,
        ctx,
    );
    assert(m.place->Spread_slots =~= Seq::new(values.len(), |i: int| None::<json::JsonView>));
    lemma_slots_fill(m, ends, values);
    let slots = after_items(m, ends).place->Spread_slots;
    assert forall|i: int| 0 <= i < slots.len() implies (#[trigger] slots[i]) == Some(values[i]) by {
        assert(ended(ends, i));
    }
    item_values_keep_their_order(slots);
    assert(Seq::new(slots.len(), |i: int| slots[i]->0) =~= values);
    assert(values.take(0) =~= Seq::<json::JsonView>::empty());
    if items.len() > 0 {
        lemma_one_by_one(
            wf,
            node,
            body,
            stop_at,
            items,
            frames,
            each_turn(
                wf,
                node,
                body,
                stop_at,
                items,
                0,
                Seq::empty(),
                frames,
                ctx.past(node),
            ),
            values,
            held,
            state,
            0,
            items.len() as int,
        );
    } else {
        assert(values =~= Seq::<json::JsonView>::empty());
    }
    assert(values.take(items.len() as int) =~= values);
}

proof fn lemma_still_spread(m: Move, ends: Seq<ItemEnd>)
    requires
        m.place is Spread,
        forall|k: int| 0 <= k < ends.len() ==> !((#[trigger] ends[k]).outcome is Failed),
    ensures
        after_items(m, ends).place is Spread,
        after_items(m, ends).frames == m.frames,
        (m.place->Spread_suspended is Some || exists|k: int|
            0 <= k < ends.len() && (#[trigger] ends[k]).outcome is Suspended
                && ends[k].child.suspend is Some) ==> after_items(
            m,
            ends,
        ).place->Spread_suspended is Some,
    decreases ends.len(),
{
    if ends.len() > 0 {
        let before = ends.drop_last();
        assert forall|k: int| 0 <= k < before.len() implies !((
        #[trigger] before[k]).outcome is Failed) by {
            assert(before[k] == ends[k]);
        }
        assert(ends[ends.len() - 1] == ends.last());
        lemma_still_spread(m, before);
        if exists|k: int|
            0 <= k < ends.len() && (#[trigger] ends[k]).outcome is Suspended
                && ends[k].child.suspend is Some {
            let k = choose|k: int|
                0 <= k < ends.len() && (#[trigger] ends[k]).outcome is Suspended
                    && ends[k].child.suspend is Some;
            if k < before.len() {
                assert(before[k] == ends[k]);
            }
        }
    }
}

/// The first walk that fails decides what a loop comes to whose items are walked at the
/// same time, whatever the other walks come to.
pub proof fn the_first_item_that_fails_decides(
    wf: Workflow,
    m: Move,
    ends: Seq<ItemEnd>,
    k: int,
)
    requires
        m.place is Spread,
        0 <= k < ends.len(),
        ends[k].outcome is Failed,
        forall|j: int| 0 <= j < k ==> !((#[trigger] ends[j]).outcome is Failed),
    ensures
        spread_done(wf, m, ends).place == PlaceView::Ended(ends[k].outcome),
        spread_done(wf, m, ends).frames == m.frames,
    decreases ends.len(),
{
    let before = ends.drop_last();
    if k == ends.len() - 1 {
        assert forall|j: int| 0 <= j < before.len() implies !((
        #[trigger] before[j]).outcome is Failed) by {
            assert(before[j] == ends[j]);
        }
        lemma_still_spread(m, before);
    } else {
        assert(before[k] == ends[k]);
        assert forall|j: int| 0 <= j < k implies !((#[trigger] before[j]).outcome is Failed) by {
            assert(before[j] == ends[j]);
        }
        the_first_item_that_fails_decides(wf, m, before, k);
        if after_items(m, before).place is Spread {
            assert(spread_done(wf, m, before).place is Ended);
            assert(after_items(m, before).place is Ended) by {
                lemma_failed_ends(m, before, k);
            }
        }
    }
}

proof fn lemma_failed_ends(m: Move, ends: Seq<ItemEnd>, k: int)
    requires
        0 <= k < ends.len(),
        ends[k].outcome is Failed,
    ensures
        !(after_items(m, ends).place is Spread),
    decreases ends.len(),
{
    if k < ends.len() - 1 {
        assert(ends.drop_last()[k] == ends[k]);
        lemma_failed_ends(m, ends.drop_last(), k);
    }
}

/// A walk that was suspended, where none fails, suspends a loop whose items are walked at
/// the same time.
pub proof fn an_item_that_is_suspended_suspends_the_loop(
    wf: Workflow,
    m: Move,
    ends: Seq<ItemEnd>,
    k: int,
)
    requires
        m.place is Spread,
        0 <= k < ends.len(),
        ends[k].outcome is Suspended,
        ends[k].child.suspend is Some,
        forall|j: int| 0 <= j < ends.len() ==> !((#[trigger] ends[j]).outcome is Failed),
    ensures
        spread_done(wf, m, ends).place == PlaceView::Ended(OutcomeView::Suspended),
        spread_done(wf, m, ends).ctx.suspend is Some,
{
    lemma_still_spread(m, ends);
}

/// A loop over items gives one value for each item.
pub proof fn loops_give_a_value_for_each_item(
    wf: Workflow,
    frames: Seq<FrameView>,
    value: json::JsonView,
    ctx: CtxView,
    state: json::JsonView,
)
    requires
        frames.len() > 0,
        frame_ok(frames.last(), false),
        frames.last() matches FrameView::Each { items, next, .. } && next == items.len(),
    ensures
        ({
            let m = delivered(wf, OutcomeView::Value(value), frames, ctx, state);
            frames.last() matches FrameView::Each { node, items, collected, .. }
                && m.ctx.outputs.contains_key(node) && m.ctx.outputs[node]
                == json::JsonView::Array(collected.push(value)) && collected.push(value).len()
                == items.len()
        }),
{
}

/// A loop with a condition ends, at the latest after the most turns there may be: what
/// the condition comes to does not matter then.
pub proof fn loops_are_bounded(
    wf: Workflow,
    strand: StrandView,
    holds: bool,
    ctx: CtxView,
    state: json::JsonView,
)
    requires
        strand.place is Turn,
        strand.frames.len() > 0,
        strand.frames.last() matches FrameView::Do { iter, .. } && iter == MAX_LOOP_ITERS,
    ensures
        answered(wf, strand, holds, ctx, state).frames == strand.frames.drop_last(),
        strand.frames.last() matches FrameView::Do { node, stop_at, .. } && answered(
            wf,
            strand,
            holds,
            ctx,
            state,
        ).place == proceeding(wf, node, strand.place->acc, stop_at),
{
}

/// Every turn of a loop with a condition is counted.
pub proof fn turns_are_counted(
    wf: Workflow,
    frames: Seq<FrameView>,
    value: json::JsonView,
    ctx: CtxView,
    state: json::JsonView,
)
    requires
        frames.len() > 0,
        frame_ok(frames.last(), false),
        frames.last() matches FrameView::Do { condition, .. } && condition is Some,
    ensures
        ({
            let m = delivered(wf, OutcomeView::Value(value), frames, ctx, state);
            &&& m.frames.len() == frames.len()
            &&& frames.last() matches FrameView::Do { node, iter, .. }
                && m.frames.last() matches FrameView::Do { iter: after, .. }
                && after == iter + 1 && m.event == Some(
                EventView::LoopIteration { node_id: node, iteration: after },
            )
        }),
{
}

/// The arms of a branch are tried in the order of the edges: no arm stands between where
/// the search begins and the arm that is tried.
pub proof fn arms_are_tried_in_order(
    edges: Seq<workflow::EdgeView>,
    node: Seq<char>,
    from: int,
    j: int,
)
    requires
        0 <= from <= j < workflow::arm_position(edges, node, from),
        from <= edges.len(),
    ensures
        !(edges[j].from == node && edges[j].kind is When),
    decreases edges.len() - from,
{
    lemma_arm_position(edges, node, from);
    if from < j {
        arms_are_tried_in_order(edges, node, from + 1, j);
    }
}

/// Members of the input stand before members of the configuration, and what only one of
/// them has is kept.
pub proof fn inputs_stand_before_configurations(
    config: Map<Seq<char>, json::JsonView>,
    input: Map<Seq<char>, json::JsonView>,
    key: Seq<char>,
)
    ensures
        merged(json::JsonView::Object(config), json::JsonView::Object(input)) matches json::JsonView::Object(
            m,
        ) && (m.contains_key(key) <==> config.contains_key(key) || input.contains_key(key)) && (
        input.contains_key(key) ==> m[key] == input[key]) && (config.contains_key(key)
            && !input.contains_key(key) ==> m[key] == config[key]),
{
}

/// A step that is known runs where it is entered and has no output yet, or is the one that
/// is resumed. It runs with every member of the input, and with every member of its
/// configuration that the input lacks, where both are objects; else with the input as it
/// is. The data of a resumed run is for the resumed step alone.
pub proof fn steps_run_with_their_configuration(
    wf: Workflow,
    node: Seq<char>,
    step_id: Seq<char>,
    config: json::JsonView,
    input: json::JsonView,
    stop_at: Option<Seq<char>>,
    frames: Seq<FrameView>,
    ctx: CtxView,
    state: json::JsonView,
)
    requires
        wf.kind_of(node) == Some(workflow::KindView::Step { step_id, config }),
        wf.knows(step_id),
        ctx.resume is Some && (ctx.resume->0).0 == node || !ctx.outputs.contains_key(node),
        ctx.suspend is None,
        stop_at != Some(node),
    ensures
        ({
            let m = entered(wf, node, input, stop_at, frames, ctx, state);
            let with = m.action->Run_input;
            &&& m.action is Run
            &&& m.action->Run_node == node
            &&& m.action->step_id == step_id
            &&& m.action->resume_data == (if ctx.resume is Some && (ctx.resume->0).0 == node {
                Some((ctx.resume->0).1)
            } else {
                None
            })
            &&& m.event == Some(EventView::StepStarted { node_id: node, step_id, input: with })
            &&& m.place == (PlaceView::Running { node, stop_at })
            &&& m.frames == frames
            &&& m.ctx == ctx
            &&& config is Object && input is Object ==> with is Object && (forall|key: Seq<char>|
                {
                    &&& #[trigger] (with->Object_0).contains_key(key) <==> (
                    config->Object_0).contains_key(key) || (input->Object_0).contains_key(key)
                    &&& (input->Object_0).contains_key(key) ==> (with->Object_0)[key]
                        == (input->Object_0)[key]
                    &&& (config->Object_0).contains_key(key) && !(
                    input->Object_0).contains_key(key) ==> (with->Object_0)[key]
                        == (config->Object_0)[key]
                })
            &&& !(config is Object && input is Object) ==> with == input
        }),
{
}

/// A step that is not known fails the walk, and no step runs.
pub proof fn unknown_steps_fail(
    wf: Workflow,
    node: Seq<char>,
    step_id: Seq<char>,
    config: json::JsonView,
    input: json::JsonView,
    stop_at: Option<Seq<char>>,
    frames: Seq<FrameView>,
    ctx: CtxView,
    state: json::JsonView,
)
    requires
        wf.kind_of(node) == Some(workflow::KindView::Step { step_id, config }),
        forall|i: int| 0 <= i < wf.steps@.len() ==> (#[trigger] wf.steps@[i])@ != step_id,
        !ctx.outputs.contains_key(node),
        ctx.suspend is None,
        stop_at != Some(node),
    ensures
        entered(wf, node, input, stop_at, frames, ctx, state).place == PlaceView::Ended(
            OutcomeView::Failed(runner::FailView::Tool("unknown step: '"@ + step_id + "'"@)),
        ),
        entered(wf, node, input, stop_at, frames, ctx, state).action == ActionView::Go,
{
    if wf.knows(step_id) {
        let views = text::views(wf.steps@);
        let i = choose|i: int| 0 <= i < views.len() && views[i] == step_id;
        assert(wf.steps@[i]@ == step_id);
    }
}

/// A walk goes on with an output: at the node that the first plain edge leads to, with the
/// output as its input, and it ends with the output where no edge leads on or where the
/// edge leads to where to stop.
pub open spec fn goes_on_with(
    wf: Workflow,
    node: Seq<char>,
    output: json::JsonView,
    stop_at: Option<Seq<char>>,
    place: PlaceView,
) -> bool {
    let next = wf.next_of(node);
    &&& next is Some && next != stop_at ==> place == (PlaceView::At {
        node: next->0,
        input: output,
        stop_at,
    })
    &&& next is None || next == stop_at ==> place == PlaceView::Ended(OutcomeView::Value(output))
}

/// A step that is done has its output remembered and reported, and the walk goes on with
/// it.
pub proof fn outputs_of_steps_go_on(
    wf: Workflow,
    node: Seq<char>,
    stop_at: Option<Seq<char>>,
    output: Json,
    started: i64,
    ended: i64,
    frames: Seq<FrameView>,
    ctx: CtxView,
)
    ensures
        ({
            let m = stepped(
                wf,
                node,
                stop_at,
                StepReply::Done(output),
                started,
                ended,
                frames,
                ctx,
            );
            &&& goes_on_with(wf, node, output@, stop_at, m.place)
            &&& m.frames == frames
            &&& m.action == ActionView::Go
            &&& m.ctx.outputs == ctx.outputs.insert(node, output@)
            &&& m.ctx.results.contains_key(node)
            &&& m.ctx.results[node].status == RunStatus::Success
            &&& m.ctx.results[node].output == Some(output@)
            &&& m.ctx.results[node].error is None
            &&& m.ctx.results[node].started_at == started
            &&& m.ctx.results[node].ended_at == Some(ended)
            &&& forall|other: Seq<char>|
                other != node && ctx.results.contains_key(other)
                    ==> #[trigger] m.ctx.results.contains_key(other) && m.ctx.results[other]
                    == ctx.results[other]
            &&& m.ctx.suspend == ctx.suspend
            &&& m.ctx.loops == ctx.loops
            &&& m.event is Some && m.event->0 is StepCompleted
            &&& (m.event->0)->StepCompleted_node_id == node
            &&& (m.event->0)->output == output@
            &&& started <= ended ==> (m.event->0)->duration_ms == ended - started
            &&& ended < started ==> (m.event->0)->duration_ms == 0
        }),
{
}

/// A step that suspends ends the walk, leaves where and for what it waits, and has no
/// output.
pub proof fn suspended_steps_say_what_they_wait_for(
    wf: Workflow,
    node: Seq<char>,
    stop_at: Option<Seq<char>>,
    resume_schema: Json,
    payload: Json,
    started: i64,
    ended: i64,
    frames: Seq<FrameView>,
    ctx: CtxView,
)
    ensures
        ({
            let m = stepped(
                wf,
                node,
                stop_at,
                StepReply::Suspended { resume_schema, payload },
                started,
                ended,
                frames,
                ctx,
            );
            &&& m.place == PlaceView::Ended(OutcomeView::Suspended)
            &&& m.frames == frames
            &&& m.action == ActionView::Go
            &&& m.ctx.suspend is Some
            &&& (m.ctx.suspend->0).node_id == node
            &&& (m.ctx.suspend->0).resume_schema == resume_schema@
            &&& (m.ctx.suspend->0).payload == payload@
            &&& m.ctx.outputs == ctx.outputs
            &&& m.ctx.loops == ctx.loops
            &&& m.ctx.results.contains_key(node)
            &&& m.ctx.results[node].status == RunStatus::Suspended
            &&& m.ctx.results[node].output is None
            &&& m.ctx.results[node].error is None
            &&& m.ctx.results[node].started_at == started
            &&& m.ctx.results[node].ended_at is None
            &&& m.event == Some(
                EventView::StepSuspended { node_id: node, resume_schema: resume_schema@ },
            )
        }),
{
}

/// A step that fails fails the walk with its error, and has no output.
pub proof fn failed_steps_fail_the_walk(
    wf: Workflow,
    node: Seq<char>,
    stop_at: Option<Seq<char>>,
    error: CerseiError,
    shown: String,
    started: i64,
    ended: i64,
    frames: Seq<FrameView>,
    ctx: CtxView,
)
    ensures
        ({
            let m = stepped(
                wf,
                node,
                stop_at,
                StepReply::Failed { error, shown },
                started,
                ended,
                frames,
                ctx,
            );
            &&& m.place == PlaceView::Ended(OutcomeView::Failed(runner::fail_view(error)))
            &&& m.frames == frames
            &&& m.action == ActionView::Go
            &&& m.ctx.outputs == ctx.outputs
            &&& m.ctx.suspend == ctx.suspend
            &&& m.ctx.loops == ctx.loops
            &&& m.ctx.results.contains_key(node)
            &&& m.ctx.results[node].status == RunStatus::Failed
            &&& m.ctx.results[node].output is None
            &&& m.ctx.results[node].error == Some(shown@)
            &&& m.ctx.results[node].started_at == started
            &&& m.ctx.results[node].ended_at == Some(ended)
            &&& m.event == Some(EventView::StepFailed { node_id: node, error: shown@ })
        }),
{
}

/// A fork hands its input to every node that a fork edge leads to, and its branches end
/// at the node where they meet. They are settled as that node says, and all must succeed
/// where it does not say or where they do not meet.
pub proof fn forks_hand_their_input_to_every_branch(
    wf: Workflow,
    node: Seq<char>,
    input: json::JsonView,
    stop_at: Option<Seq<char>>,
    frames: Seq<FrameView>,
    ctx: CtxView,
    state: json::JsonView,
)
    requires
        wf.kind_of(node) == Some(workflow::KindView::Parallel),
        ctx.suspend is None,
        stop_at != Some(node),
        ({
            let join = wf.join_of(workflow::fork_targets(wf.def@.edges, node));
            join is Some ==> !ctx.outputs.contains_key(join->0)
        }),
    ensures
        ({
            let m = entered(wf, node, input, stop_at, frames, ctx, state);
            let targets = workflow::targets(
                wf.def@.edges.filter(
                    |e: workflow::EdgeView| e.from == node && e.kind == workflow::LinkView::Fork,
                ),
            );
            let join = wf.join_of(targets);
            let all_or_fail = !(join is Some && wf.kind_of(join->0) == Some(
                workflow::KindView::Join { strategy: JoinStrategy::AllSettled },
            ));
            &&& m.action == (ActionView::Fork { targets, input, join })
            &&& m.place == (PlaceView::Forked {
                join,
                strategy: if all_or_fail {
                    JoinStrategy::AllOrFail
                } else {
                    JoinStrategy::AllSettled
                },
                stop_at,
            })
            &&& m.frames == frames
            &&& m.ctx == ctx
        }),
{
    workflow::forks_lead_to_all_their_targets(wf.def@.edges, node);
}

/// The value of a branch, or null where it has none.
pub open spec fn value_or_null(outcome: OutcomeView) -> json::JsonView {
    match outcome {
        OutcomeView::Value(v) => v,
        _ => json::JsonView::Null,
    }
}

proof fn lemma_settled_values(results: Seq<OutcomeView>, strategy: JoinStrategy)
    requires
        forall|i: int|
            0 <= i < results.len() ==> (#[trigger] results[i]) is Value || (results[i] is Failed
                && strategy is AllSettled),
    ensures
        settled(results, strategy) == OutcomeView::Value(
            json::JsonView::Array(Seq::new(results.len(), |i: int| value_or_null(results[i]))),
        ),
    decreases results.len(),
{
    let all = Seq::new(results.len(), |i: int| value_or_null(results[i]));
    if results.len() == 0 {
        assert(all =~= Seq::<json::JsonView>::empty());
    } else {
        let before = results.drop_last();
        assert forall|i: int| 0 <= i < before.len() implies (#[trigger] before[i]) is Value || (
        before[i] is Failed && strategy is AllSettled) by {
            assert(before[i] == results[i]);
        }
        lemma_settled_values(before, strategy);
        let values = Seq::new(before.len(), |i: int| value_or_null(before[i]));
        assert(all =~= values.push(value_or_null(results.last())));
    }
}

/// Branches that all have a value, or may fail, meet with their values in their order,
/// null for one that failed. The values are the output of the join, which is remembered,
/// and the walk goes on behind the join with them; where there is no join it ends with
/// them.
pub proof fn joins_give_the_values_of_all_branches(
    wf: Workflow,
    join: Option<Seq<char>>,
    strategy: JoinStrategy,
    stop_at: Option<Seq<char>>,
    results: Seq<OutcomeView>,
    frames: Seq<FrameView>,
    ctx: CtxView,
)
    requires
        forall|i: int|
            0 <= i < results.len() ==> (#[trigger] results[i]) is Value || (results[i] is Failed
                && strategy == JoinStrategy::AllSettled),
    ensures
        ({
            let m = rejoined(wf, join, strategy, stop_at, results, frames, ctx);
            let values = json::JsonView::Array(
                Seq::new(results.len(), |i: int| value_or_null(results[i])),
            );
            &&& m.frames == frames
            &&& m.action == ActionView::Go
            &&& m.event is None
            &&& join is Some ==> goes_on_with(wf, join->0, values, stop_at, m.place) && m.ctx
                == ctx.holding(join->0, values)
            &&& join is None ==> m.place == PlaceView::Ended(OutcomeView::Value(values)) && m.ctx
                == ctx
        }),
{
    lemma_settled_values(results, strategy);
}

/// A join that is entered gives its input on.
pub proof fn joins_give_their_input_on(
    wf: Workflow,
    node: Seq<char>,
    strategy: JoinStrategy,
    input: json::JsonView,
    stop_at: Option<Seq<char>>,
    frames: Seq<FrameView>,
    ctx: CtxView,
    state: json::JsonView,
)
    requires
        wf.kind_of(node) == Some(workflow::KindView::Join { strategy }),
        !ctx.outputs.contains_key(node),
        ctx.suspend is None,
        stop_at != Some(node),
    ensures
        ({
            let m = entered(wf, node, input, stop_at, frames, ctx, state);
            &&& goes_on_with(wf, node, input, stop_at, m.place)
            &&& m.ctx.outputs == ctx.outputs.insert(node, input)
            &&& m.frames == frames
            &&& m.action == ActionView::Go
        }),
{
}

/// A node that is not there fails the walk.
pub proof fn missing_nodes_fail(
    wf: Workflow,
    node: Seq<char>,
    input: json::JsonView,
    stop_at: Option<Seq<char>>,
    frames: Seq<FrameView>,
    ctx: CtxView,
    state: json::JsonView,
)
    requires
        wf.kind_of(node) is None,
        ctx.suspend is None,
        stop_at != Some(node),
    ensures
        entered(wf, node, input, stop_at, frames, ctx, state).place == PlaceView::Ended(
            OutcomeView::Failed(runner::FailView::Config("missing node '"@ + node + "'"@)),
        ),
{
}

/// A walk that comes to where it is to stop ends there with what it brought.
pub proof fn walks_stop_where_they_are_to_stop(
    wf: Workflow,
    node: Seq<char>,
    input: json::JsonView,
    frames: Seq<FrameView>,
    ctx: CtxView,
    state: json::JsonView,
)
    ensures
        entered(wf, node, input, Some(node), frames, ctx, state).place == PlaceView::Ended(
            OutcomeView::Value(input),
        ),
        entered(wf, node, input, Some(node), frames, ctx, state).ctx == ctx,
{
}

proof fn lemma_first_arm(edges: Seq<workflow::EdgeView>, node: Seq<char>, from: int, i: int)
    requires
        0 <= from <= i <= edges.len(),
        forall|j: int|
            from <= j < i ==> !((#[trigger] edges[j]).from == node && edges[j].kind is When),
        i < edges.len() ==> edges[i].from == node && edges[i].kind is When,
    ensures
        workflow::arm_position(edges, node, from) == i,
    decreases i - from,
{
    if from < i {
        assert(!(edges[from].from == node && edges[from].kind is When));
        lemma_first_arm(edges, node, from + 1, i);
    }
}

/// A branch asks the condition of its first arm, of the run with the input at hand; where
/// it has no arm it goes by its plain edge, and ends with its input where it has none.
pub proof fn branches_ask_their_first_arm(
    wf: Workflow,
    node: Seq<char>,
    input: json::JsonView,
    stop_at: Option<Seq<char>>,
    frames: Seq<FrameView>,
    ctx: CtxView,
    state: json::JsonView,
    i: int,
)
    requires
        wf.kind_of(node) == Some(workflow::KindView::Branch),
        ctx.suspend is None,
        stop_at != Some(node),
        0 <= i <= wf.def@.edges.len(),
        forall|j: int|
            0 <= j < i ==> !((#[trigger] wf.def@.edges[j]).from == node && wf.def@.edges[j].kind
                is When),
        i < wf.def@.edges.len() ==> wf.def@.edges[i].from == node && wf.def@.edges[i].kind is When,
    ensures
        ({
            let m = entered(wf, node, input, stop_at, frames, ctx, state);
            &&& m.ctx == ctx
            &&& m.frames == frames
            &&& i < wf.def@.edges.len() ==> m.place == (PlaceView::Arm {
                node,
                input,
                stop_at,
                edge: i,
            }) && m.action == (ActionView::Ask {
                condition: wf.def@.edges[i].kind->When_0,
                scope: scope_of(ctx, state, input),
            })
            &&& i == wf.def@.edges.len() ==> m.action == ActionView::Go && m.place
                == (match wf.next_of(node) {
                Some(to) => PlaceView::At { node: to, input, stop_at },
                None => PlaceView::Ended(OutcomeView::Value(input)),
            })
        }),
{
    lemma_first_arm(wf.def@.edges, node, 0, i);
}

/// An arm whose condition holds is taken: the walk goes on where it leads, with the input
/// of the branch. An arm whose condition does not hold is passed over: the next arm is
/// asked, and where none is left the branch goes by its plain edge.
pub proof fn arms_are_taken_where_they_hold(
    wf: Workflow,
    node: Seq<char>,
    input: json::JsonView,
    stop_at: Option<Seq<char>>,
    edge: int,
    frames: Seq<FrameView>,
    ctx: CtxView,
    state: json::JsonView,
    i: int,
)
    requires
        0 <= edge < i <= wf.def@.edges.len(),
        forall|j: int|
            edge < j < i ==> !((#[trigger] wf.def@.edges[j]).from == node && wf.def@.edges[j].kind
                is When),
        i < wf.def@.edges.len() ==> wf.def@.edges[i].from == node && wf.def@.edges[i].kind is When,
    ensures
        ({
            let strand = StrandView { place: PlaceView::Arm { node, input, stop_at, edge }, frames };
            let taken = answered(wf, strand, true, ctx, state);
            let passed = answered(wf, strand, false, ctx, state);
            let to = wf.def@.edges[edge].to;
            &&& taken.place == (PlaceView::At { node: to, input, stop_at })
            &&& taken.event == Some(EventView::BranchTaken { node_id: node, edge_to: to })
            &&& taken.frames == frames
            &&& taken.ctx == ctx
            &&& taken.action == ActionView::Go
            &&& passed.frames == frames
            &&& passed.ctx == ctx
            &&& i < wf.def@.edges.len() ==> passed.place == (PlaceView::Arm {
                node,
                input,
                stop_at,
                edge: i,
            }) && passed.event is None && passed.action == (ActionView::Ask {
                condition: wf.def@.edges[i].kind->When_0,
                scope: scope_of(ctx, state, input),
            })
            &&& i == wf.def@.edges.len() ==> match wf.next_of(node) {
                Some(next) => passed.place == (PlaceView::At { node: next, input, stop_at })
                    && passed.event == Some(
                    EventView::BranchTaken { node_id: node, edge_to: next },
                ),
                None => passed.place == PlaceView::Ended(OutcomeView::Value(input))
                    && passed.event is None,
            }
        }),
{
    lemma_first_arm(wf.def@.edges, node, edge + 1, i);
}

/// A mapping gives an object with a member for each of its fields, the value that the
/// field's pointer finds, null where it finds none; a pointer may leave out its first
/// slash. The object is the output, and the walk goes on with it.
pub proof fn mappings_pick_what_their_pointers_find(
    wf: Workflow,
    node: Seq<char>,
    fields: Seq<(Seq<char>, Seq<char>)>,
    input: json::JsonView,
    stop_at: Option<Seq<char>>,
    frames: Seq<FrameView>,
    ctx: CtxView,
    state: json::JsonView,
)
    requires
        wf.kind_of(node) == Some(workflow::KindView::Reshape { fields }),
        !ctx.outputs.contains_key(node),
        ctx.suspend is None,
        stop_at != Some(node),
        forall|i: int, j: int|
            #![trigger fields[i], fields[j]]
            0 <= i < j < fields.len() ==> fields[i].0 != fields[j].0,
    ensures
        ({
            let m = entered(wf, node, input, stop_at, frames, ctx, state);
            let output = m.ctx.outputs[node];
            let scope = scope_of(ctx, state, input);
            &&& m.ctx.outputs.contains_key(node)
            &&& goes_on_with(wf, node, output, stop_at, m.place)
            &&& m.frames == frames
            &&& output is Object
            &&& forall|key: Seq<char>| #[trigger]
                (output->Object_0).contains_key(key) <==> exists|i: int|
                    0 <= i < fields.len() && (#[trigger] fields[i]).0 == key
            &&& forall|i: int|
                0 <= i < fields.len() ==> picks(scope, (#[trigger] fields[i]).1, (
                output->Object_0)[fields[i].0])
        }),
{
    lemma_reshaped(scope_of(ctx, state, input), fields);
}

/// A pointer picks a value: what it finds, with a slash before it where it has none, and
/// null where it finds nothing.
pub open spec fn picks(scope: json::JsonView, path: Seq<char>, value: json::JsonView) -> bool {
    let full = if path.len() > 0 && path[0] == '/' {
        path
    } else {
        seq!['/'] + path
    };
    match json::json_pointed(scope, full) {
        Some(v) => value == v,
        None => value == json::JsonView::Null,
    }
}

proof fn lemma_reshaped(scope: json::JsonView, fields: Seq<(Seq<char>, Seq<char>)>)
    requires
        forall|i: int, j: int|
            #![trigger fields[i], fields[j]]
            0 <= i < j < fields.len() ==> fields[i].0 != fields[j].0,
    ensures
        forall|key: Seq<char>| #[trigger]
            reshaped(scope, fields).contains_key(key) <==> exists|i: int|
                0 <= i < fields.len() && (#[trigger] fields[i]).0 == key,
        forall|i: int|
            0 <= i < fields.len() ==> picks(
                scope,
                (#[trigger] fields[i]).1,
                reshaped(scope, fields)[fields[i].0],
            ),
    decreases fields.len(),
{
    if fields.len() > 0 {
        let before = fields.drop_last();
        let last = fields.last();
        assert forall|i: int, j: int|
            #![trigger before[i], before[j]]
            0 <= i < j < before.len() implies before[i].0 != before[j].0 by {
            assert(before[i] == fields[i] && before[j] == fields[j]);
        }
        lemma_reshaped(scope, before);
        reveal_strlit("/");
        assert("/"@ =~= seq!['/']);
        assert forall|key: Seq<char>| #[trigger]
            reshaped(scope, fields).contains_key(key) implies exists|i: int|
            0 <= i < fields.len() && (#[trigger] fields[i]).0 == key by {
            if key == last.0 {
                assert(fields[fields.len() - 1].0 == key);
            } else {
                assert(reshaped(scope, before).contains_key(key));
                let i = choose|i: int| 0 <= i < before.len() && (#[trigger] before[i]).0 == key;
                assert(fields[i].0 == key);
            }
        }
        assert forall|i: int| 0 <= i < fields.len() implies picks(
            scope,
            (#[trigger] fields[i]).1,
            reshaped(scope, fields)[fields[i].0],
        ) && reshaped(scope, fields).contains_key(fields[i].0) by {
            if i < fields.len() - 1 {
                assert(before[i] == fields[i]);
                assert(fields[i].0 != fields[fields.len() - 1].0);
                assert(reshaped(scope, before).contains_key(before[i].0));
            }
        }
    }
}

/// A loop with a condition begins with its body, on the input of the loop. After each turn
/// the condition is asked, of the run with what the turn gave at hand.
pub proof fn loops_begin_with_their_input(
    wf: Workflow,
    node: Seq<char>,
    mode: LoopMode,
    body: Seq<char>,
    condition: json::JsonView,
    input: json::JsonView,
    stop_at: Option<Seq<char>>,
    frames: Seq<FrameView>,
    ctx: CtxView,
    state: json::JsonView,
    value: json::JsonView,
    later: CtxView,
)
    requires
        wf.kind_of(node) == Some(
            workflow::KindView::Loop { mode, body, condition: Some(condition) },
        ),
        mode == LoopMode::DoWhile || mode == LoopMode::DoUntil,
        !ctx.outputs.contains_key(node),
        !ctx.loops.contains_key(node),
        ctx.suspend is None,
        stop_at != Some(node),
    ensures
        ({
            let m = entered(wf, node, input, stop_at, frames, ctx, state);
            let after = delivered(wf, OutcomeView::Value(value), m.frames, later, state);
            &&& m.place == (PlaceView::At { node: body, input, stop_at: Some(node) })
            &&& m.action == ActionView::Go
            &&& m.frames.len() == frames.len() + 1
            &&& m.frames.drop_last() == frames
            &&& after.action == (ActionView::Ask {
                condition,
                scope: scope_of(later, state, value),
            })
            &&& after.place == (PlaceView::Turn { acc: value })
            &&& after.ctx == later
            &&& after.event == Some(EventView::LoopIteration { node_id: node, iteration: 1 })
        }),
{
    let m = entered(wf, node, input, stop_at, frames, ctx, state);
    assert(m.frames.drop_last() =~= frames);
}

/// A loop of the one kind goes on as long as its condition holds, one of the other until
/// it holds. It goes on with its body, on what the last turn gave; where it stops, that is
/// its output, and the walk goes on with it.
pub proof fn loops_go_by_their_conditions(
    wf: Workflow,
    node: Seq<char>,
    mode: LoopMode,
    body: Seq<char>,
    condition: json::JsonView,
    input: json::JsonView,
    stop_at: Option<Seq<char>>,
    frames: Seq<FrameView>,
    ctx: CtxView,
    state: json::JsonView,
    value: json::JsonView,
    holds: bool,
    later: CtxView,
)
    requires
        wf.kind_of(node) == Some(
            workflow::KindView::Loop { mode, body, condition: Some(condition) },
        ),
        mode == LoopMode::DoWhile || mode == LoopMode::DoUntil,
        !ctx.outputs.contains_key(node),
        !ctx.loops.contains_key(node),
        ctx.suspend is None,
        stop_at != Some(node),
    ensures
        ({
            let begun = entered(wf, node, input, stop_at, frames, ctx, state);
            let turned = delivered(wf, OutcomeView::Value(value), begun.frames, later, state);
            let m = answered(
                wf,
                StrandView { place: turned.place, frames: turned.frames },
                holds,
                later,
                state,
            );
            let again = if mode == LoopMode::DoWhile {
                holds
            } else {
                !holds
            };
            &&& again ==> m.place == (PlaceView::At {
                node: body,
                input: value,
                stop_at: Some(node),
            }) && m.frames.len() == frames.len() + 1
            &&& !again ==> goes_on_with(wf, node, value, stop_at, m.place) && m.frames == frames
                && m.ctx.outputs == later.outputs.insert(node, value)
            &&& m.action == ActionView::Go
        }),
{
    let begun = entered(wf, node, input, stop_at, frames, ctx, state);
    assert(begun.frames.drop_last() =~= frames);
    let turned = delivered(wf, OutcomeView::Value(value), begun.frames, later, state);
    assert(turned.frames.drop_last() =~= frames);
}

/// A loop over items, one at a time, walks its body on the first item, and after each item
/// on the next one; behind the last it goes on with the values in the order of the items.
pub proof fn every_item_is_walked_in_turn(
    wf: Workflow,
    node: Seq<char>,
    body: Seq<char>,
    condition: Option<json::JsonView>,
    concurrency: usize,
    items: Seq<json::JsonView>,
    values: Seq<json::JsonView>,
    stop_at: Option<Seq<char>>,
    frames: Seq<FrameView>,
    ctx: CtxView,
    state: json::JsonView,
)
    requires
        wf.kind_of(node) == Some(
            workflow::KindView::Loop { mode: LoopMode::ForEach { concurrency }, body, condition },
        ),
        concurrency <= 1,
        !ctx.outputs.contains_key(node),
        !ctx.loops.contains_key(node),
        ctx.suspend is None,
        stop_at != Some(node),
        0 < values.len() <= items.len(),
    ensures
        ({
            let first = entered(
                wf,
                node,
                json::JsonView::Array(items),
                stop_at,
                frames,
                ctx,
                state,
            );
            let n = values.len() as int;
            let walking = frames.push(
                FrameView::Each {
                    node,
                    body,
                    stop_at,
                    items,
                    next: n,
                    collected: values.drop_last(),
                },
            );
            let next = delivered(wf, OutcomeView::Value(values.last()), walking, ctx, state);
            &&& first.place == (PlaceView::At {
                node: body,
                input: items[0],
                stop_at: Some(node),
            })
            &&& n == 1 ==> first.frames == walking
            &&& n < items.len() ==> next.place == (PlaceView::At {
                node: body,
                input: items[n],
                stop_at: Some(node),
            }) && next.frames == frames.push(
                FrameView::Each { node, body, stop_at, items, next: n + 1, collected: values },
            )
            &&& n == items.len() ==> goes_on_with(
                wf,
                node,
                json::JsonView::Array(values),
                stop_at,
                next.place,
            ) && next.frames == frames && next.ctx.outputs == ctx.outputs.insert(
                node,
                json::JsonView::Array(values),
            )
        }),
{
    let n = values.len() as int;
    let walking = frames.push(
        FrameView::Each { node, body, stop_at, items, next: n, collected: values.drop_last() },
    );
    assert(walking.drop_last() =~= frames);
    assert(values.drop_last().push(values.last()) =~= values);
    if n == 1 {
        assert(values.drop_last() =~= Seq::<json::JsonView>::empty());
    }
}

/// A loop over no items gives no values.
pub proof fn a_loop_over_nothing_gives_nothing(
    wf: Workflow,
    node: Seq<char>,
    body: Seq<char>,
    condition: Option<json::JsonView>,
    concurrency: usize,
    stop_at: Option<Seq<char>>,
    frames: Seq<FrameView>,
    ctx: CtxView,
    state: json::JsonView,
)
    requires
        wf.kind_of(node) == Some(
            workflow::KindView::Loop { mode: LoopMode::ForEach { concurrency }, body, condition },
        ),
        concurrency <= 1,
        !ctx.outputs.contains_key(node),
        ctx.suspend is None,
        stop_at != Some(node),
    ensures
        ({
            let m = entered(
                wf,
                node,
                json::JsonView::Array(Seq::empty()),
                stop_at,
                frames,
                ctx,
                state,
            );
            goes_on_with(wf, node, json::JsonView::Array(Seq::empty()), stop_at, m.place)
        }),
{
}

/// A loop over items, several at a time, hands out all items with its body and how many
/// may be walked at a time; what is no list fails.
pub proof fn loops_over_items_hand_out_all_of_them(
    wf: Workflow,
    node: Seq<char>,
    body: Seq<char>,
    condition: Option<json::JsonView>,
    concurrency: usize,
    input: json::JsonView,
    stop_at: Option<Seq<char>>,
    frames: Seq<FrameView>,
    ctx: CtxView,
    state: json::JsonView,
)
    requires
        wf.kind_of(node) == Some(
            workflow::KindView::Loop { mode: LoopMode::ForEach { concurrency }, body, condition },
        ),
        !ctx.outputs.contains_key(node),
        ctx.suspend is None,
        stop_at != Some(node),
    ensures
        ({
            let m = entered(wf, node, input, stop_at, frames, ctx, state);
            &&& input is Array && concurrency > 1 ==> m.action == (ActionView::Spread {
                items: input->Array_0,
                node,
                body,
                limit: concurrency,
            }) && m.place is Spread && m.place->slots.len() == (input->Array_0).len() && (
            forall|i: int|
                0 <= i < m.place->slots.len() ==> (#[trigger] m.place->slots[i]) is None)
            &&& !(input is Array) ==> m.place == PlaceView::Ended(
                OutcomeView::Failed(runner::FailView::Config("foreach input is not an array"@)),
            )
        }),
{
}

/// A walk that came to a value, a suspension or a failure gives a run that succeeded with
/// the value, was suspended at its point, or failed with the error as it is written. A
/// result has no more than one of these, and the run's id, input, state and the results of
/// its steps.
pub proof fn results_say_how_runs_ended(
    ctx: CtxView,
    outcome: OutcomeView,
    shown: Seq<char>,
    state: json::JsonView,
)
    ensures
        ({
            let r = result_of(ctx, outcome, shown, state);
            &&& r.run_id == ctx.run_id
            &&& r.input == ctx.input
            &&& r.state == state
            &&& r.steps == ctx.results
            &&& outcome matches OutcomeView::Value(v) ==> r.status == RunStatus::Success
                && r.result == Some(v) && r.error is None && r.suspended.len() == 0
            &&& outcome is Suspended ==> r.status == RunStatus::Suspended && r.result is None
                && r.error is None && (ctx.suspend is Some ==> r.suspended == seq![ctx.suspend->0])
            &&& outcome is Failed ==> r.status == RunStatus::Failed && r.result is None && r.error
                == Some(shown) && r.suspended.len() == 0
        }),
{
}

/// A walk that is not in a loop comes to what it ended with; one that fails or is suspended
/// in a loop ends the loop so too.
pub proof fn walks_come_to_what_they_ended_with(
    wf: Workflow,
    outcome: OutcomeView,
    frames: Seq<FrameView>,
    ctx: CtxView,
    state: json::JsonView,
)
    ensures
        frames.len() == 0 ==> delivered(wf, outcome, frames, ctx, state).place
            == PlaceView::Ended(outcome) && delivered(wf, outcome, frames, ctx, state).action
            == ActionView::End && delivered(wf, outcome, frames, ctx, state).ctx == ctx,
        frames.len() > 0 && !(outcome is Value) ==> delivered(
            wf,
            outcome,
            frames,
            ctx,
            state,
        ).place == PlaceView::Ended(outcome) && delivered(wf, outcome, frames, ctx, state).frames
            == frames.drop_last() && delivered(wf, outcome, frames, ctx, state).ctx.outputs
            == ctx.outputs,
{
}

/// Every turn of a loop runs its body anew: nothing of the body is remembered where a turn
/// begins, and what is remembered of other nodes stays.
pub proof fn turns_run_their_body_anew(
    wf: Workflow,
    node: Seq<char>,
    mode: LoopMode,
    body: Seq<char>,
    condition: Option<json::JsonView>,
    input: json::JsonView,
    stop_at: Option<Seq<char>>,
    frames: Seq<FrameView>,
    ctx: CtxView,
    items: Seq<json::JsonView>,
    next: int,
    collected: Seq<json::JsonView>,
    iter: u32,
    going: bool,
    n: Seq<char>,
)
    requires
        !ctx.loops.contains_key(node),
        0 <= next < items.len(),
        iter < MAX_LOOP_ITERS,
    ensures
        ({
            let each = each_turn(wf, node, body, stop_at, items, next, collected, frames, ctx);
            let again = do_turn(
                wf,
                node,
                body,
                going,
                condition,
                stop_at,
                iter,
                going,
                input,
                frames,
                ctx,
            );
            let begun = loop_begun(wf, node, mode, body, condition, input, stop_at, frames, ctx);
            let inside = workflow::reaches(wf.def@.edges, body, node, n);
            &&& inside ==> !each.ctx.outputs.contains_key(n) && !again.ctx.outputs.contains_key(n)
            &&& !inside && ctx.outputs.contains_key(n) ==> each.ctx.outputs.contains_key(n)
                && each.ctx.outputs[n] == ctx.outputs[n] && again.ctx.outputs.contains_key(n)
                && again.ctx.outputs[n] == ctx.outputs[n]
            &&& inside && !(mode is ForEach) ==> !begun.ctx.outputs.contains_key(n)
            &&& !inside && !(mode is ForEach) && ctx.outputs.contains_key(n)
                ==> begun.ctx.outputs.contains_key(n) && begun.ctx.outputs[n] == ctx.outputs[n]
            &&& each.ctx.results == ctx.results && again.ctx.results == ctx.results
            &&& each.ctx.suspend == ctx.suspend && again.ctx.suspend == ctx.suspend
        }),
{
}

/// What the walk on an item reported is reported by the run, on top of what it reported
/// before. A value is for the item's own place, the first suspension is kept, and a failure
/// ends the loop.
pub proof fn items_report_to_the_run(
    node: Seq<char>,
    stop_at: Option<Seq<char>>,
    slots: Seq<Option<json::JsonView>>,
    suspended: Option<SuspendView>,
    idx: int,
    outcome: OutcomeView,
    child: CtxView,
    frames: Seq<FrameView>,
    ctx: CtxView,
    n: Seq<char>,
)
    requires
        0 <= idx < slots.len(),
    ensures
        ({
            let m = item_done(node, stop_at, slots, suspended, idx, outcome, child, frames, ctx);
            let told = m.ctx.results;
            &&& child.results.contains_key(n) ==> told.contains_key(n) && told[n]
                == child.results[n]
            &&& !child.results.contains_key(n) && ctx.results.contains_key(n)
                ==> told.contains_key(n) && told[n] == ctx.results[n]
            &&& !child.results.contains_key(n) && !ctx.results.contains_key(n)
                ==> !told.contains_key(n)
            &&& m.ctx.outputs == ctx.outputs && m.ctx.suspend == ctx.suspend
            &&& outcome matches OutcomeView::Value(v) ==> m.place is Spread && m.place->slots[idx]
                == Some(v) && m.place->slots.len() == slots.len() && (forall|i: int|
                0 <= i < slots.len() && i != idx ==> #[trigger] m.place->slots[i] == slots[i])
                && m.place->suspended == suspended
            &&& outcome is Suspended ==> m.place is Spread && m.place->slots == slots && (
            suspended is Some ==> m.place->suspended == suspended) && (suspended is None
                ==> m.place->suspended == child.suspend)
            &&& outcome is Failed ==> m.place == PlaceView::Ended(outcome)
            &&& m.frames == frames
        }),
{
}

/// A step that is to be resumed is walked to: a loop or a fork that it is in is entered
/// although its output is remembered, as long as the step has not run.
pub proof fn the_resumed_step_is_walked_to(
    wf: Workflow,
    node: Seq<char>,
    resumed: Seq<char>,
    data: json::JsonView,
    input: json::JsonView,
    stop_at: Option<Seq<char>>,
    frames: Seq<FrameView>,
    ctx: CtxView,
    state: json::JsonView,
    k: int,
)
    requires
        ctx.resume == Some((resumed, data)),
        !ctx.results.contains_key(resumed),
        ctx.suspend is None,
        stop_at != Some(node),
    ensures
        ({
            let m = entered(wf, node, input, stop_at, frames, ctx, state);
            let edges = wf.def@.edges;
            let targets = workflow::targets(
                edges.filter(
                    |e: workflow::EdgeView| e.from == node && e.kind == workflow::LinkView::Fork,
                ),
            );
            let join = wf.join_of(targets);
            &&& wf.kind_of(node) matches Some(workflow::KindView::Loop { mode, body, .. })
                ==> workflow::reaches(edges, body, node, resumed) && !(mode is ForEach)
                ==> m.place is At && m.place->At_node == body && m.place->At_stop_at == Some(node)
            &&& wf.kind_of(node) == Some(workflow::KindView::Parallel) && join is Some && 0 <= k
                < targets.len() && workflow::reaches(edges, targets[k], join->0, resumed)
                ==> m.action is Fork
        }),
{
    workflow::forks_lead_to_all_their_targets(wf.def@.edges, node);
    let targets = workflow::fork_targets(wf.def@.edges, node);
    let join = wf.join_of(targets);
    if join is Some && 0 <= k < targets.len() && workflow::reaches(
        wf.def@.edges,
        targets[k],
        join->0,
        resumed,
    ) {
        assert(fork_nodes(wf, targets, join->0).contains(resumed));
    }
}

/// Once the step that was to be resumed has run, loops and forks whose output is remembered
/// are passed over with it.
pub proof fn what_is_remembered_is_passed_over_once_it_ran(
    wf: Workflow,
    node: Seq<char>,
    resumed: Seq<char>,
    data: json::JsonView,
    input: json::JsonView,
    stop_at: Option<Seq<char>>,
    frames: Seq<FrameView>,
    ctx: CtxView,
    state: json::JsonView,
)
    requires
        ctx.resume is None || (ctx.resume == Some((resumed, data)) && ctx.results.contains_key(
            resumed,
        )),
        ctx.suspend is None,
        stop_at != Some(node),
    ensures
        ({
            let m = entered(wf, node, input, stop_at, frames, ctx, state);
            let join = wf.join_of(
                workflow::targets(
                    wf.def@.edges.filter(
                        |e: workflow::EdgeView|
                            e.from == node && e.kind == workflow::LinkView::Fork,
                    ),
                ),
            );
            &&& wf.kind_of(node) matches Some(workflow::KindView::Loop { .. })
                ==> ctx.outputs.contains_key(node) ==> goes_on_with(
                wf,
                node,
                ctx.outputs[node],
                stop_at,
                m.place,
            ) && m.action == ActionView::Go && m.ctx == ctx
            &&& wf.kind_of(node) == Some(workflow::KindView::Parallel) && join is Some
                && ctx.outputs.contains_key(join->0) ==> goes_on_with(
                wf,
                join->0,
                ctx.outputs[join->0],
                stop_at,
                m.place,
            ) && m.action == ActionView::Go && m.ctx == ctx
        }),
{
    workflow::forks_lead_to_all_their_targets(wf.def@.edges, node);
}

/// A step, a mapping or a join whose output is remembered is passed over with it, but for
/// the step that is resumed.
pub proof fn remembered_outputs_go_on(
    wf: Workflow,
    node: Seq<char>,
    input: json::JsonView,
    stop_at: Option<Seq<char>>,
    frames: Seq<FrameView>,
    ctx: CtxView,
    state: json::JsonView,
)
    requires
        wf.kind_of(node) is Some,
        wf.kind_of(node)->0 is Step || wf.kind_of(node)->0 is Reshape || wf.kind_of(node)->0
            is Join,
        ctx.outputs.contains_key(node),
        ctx.resume is None || (ctx.resume->0).0 != node,
        ctx.suspend is None,
        stop_at != Some(node),
    ensures
        ({
            let m = entered(wf, node, input, stop_at, frames, ctx, state);
            &&& goes_on_with(wf, node, ctx.outputs[node], stop_at, m.place)
            &&& m.action == ActionView::Go
            &&& m.event is None
            &&& m.ctx == ctx
            &&& m.frames == frames
        }),
{
}

/// A loop that is suspended remembers how far it has come: the values of the items before
/// the one it stopped at, or the turns it made and what the last one began with.
pub proof fn suspended_loops_remember_how_far_they_came(
    wf: Workflow,
    frames: Seq<FrameView>,
    ctx: CtxView,
    state: json::JsonView,
)
    requires
        frames.len() > 0,
    ensures
        ({
            let m = delivered(wf, OutcomeView::Suspended, frames, ctx, state);
            match frames.last() {
                FrameView::Each { node, collected, .. } => m.ctx.loops.contains_key(node)
                    && m.ctx.loops[node] == (memo::ProgressView::Each { values: collected }),
                FrameView::Do { node, iter, begun, .. } => m.ctx.loops.contains_key(node)
                    && m.ctx.loops[node] == (memo::ProgressView::Turns {
                    turns: iter,
                    acc: begun,
                }),
            }
        }),
{
}

/// A strand that made a move is where the move leads, in the loops that it leads into, with
/// what the run holds then; and what is to be done and told is what the move says.
pub proof fn moves_are_made_in_full(
    strand: StrandView,
    ctx: CtxView,
    action: ActionView,
    event: Option<EventView>,
    m: Move,
)
    ensures
        made(strand, ctx, action, event, m) ==> strand.place == m.place && strand.frames
            == m.frames && ctx == m.ctx && action == m.action && event == m.event,
        arrived(strand, ctx, m) ==> strand.place == m.place && strand.frames == m.frames && ctx
            == m.ctx,
{
}

/// An action shows all that it holds.
pub proof fn actions_show_what_they_hold(action: Action)
    ensures
        action matches Action::Run { node, step_id, input, .. } ==> action@ is Run
            && action@->Run_node == node@ && action@->step_id == step_id@ && action@->Run_input
            == input@,
        action matches Action::Ask { condition, scope } ==> action@ == (ActionView::Ask {
            condition: condition.source@,
            scope: scope@,
        }),
        action matches Action::Fork { targets, input, .. } ==> action@ is Fork
            && action@->Fork_input == input@ && action@->targets.len() == targets@.len() && (
        forall|i: int|
            0 <= i < targets@.len() ==> #[trigger] action@->targets[i] == targets@[i]@),
        action matches Action::Spread { items, node, body, limit } ==> action@ is Spread
            && action@->Spread_node == node@ && action@->body == body@ && action@->limit == limit
            && action@->items.len() == items@.len() && (forall|i: int|
            0 <= i < items@.len() ==> #[trigger] action@->items[i] == items@[i]@),
        action is Go <==> action@ is Go,
        action is End <==> action@ is End,
{
    if let Action::Spread { items, .. } = action {
        json::lemma_items_view(items@);
    }
}

/// A strand that comes to a step which is to run asks for the step to be run, with every
/// member of its input and with every member of the step's configuration that the input
/// lacks; and observers are told so.
pub proof fn strands_run_steps_with_their_configuration(
    strand: &mut Strand,
    wf: &Workflow,
    ctx: &mut RunCtx,
    state: &Json,
    node: Seq<char>,
    input: Map<Seq<char>, json::JsonView>,
    stop_at: Option<Seq<char>>,
    step_id: Seq<char>,
    config: Map<Seq<char>, json::JsonView>,
    r: (Action, Option<WorkflowEvent>),
    key: Seq<char>,
)
    requires
        call_ensures(Strand::advance, (strand, wf, ctx, state), r),
        old(strand)@.place == (PlaceView::At {
            node,
            input: json::JsonView::Object(input),
            stop_at,
        }),
        wf.kind_of(node) == Some(
            workflow::KindView::Step { step_id, config: json::JsonView::Object(config) },
        ),
        wf.knows(step_id),
        !old(ctx)@.outputs.contains_key(node),
        old(ctx)@.suspend is None,
        stop_at != Some(node),
    ensures
        r.0 is Run,
        r.0->Run_node@ == node,
        r.0->step_id@ == step_id,
        r.0->Run_input@ is Object,
        ({
            let with = r.0->Run_input@->Object_0;
            &&& input.contains_key(key) ==> json::holds(with, key, input[key])
            &&& config.contains_key(key) && !input.contains_key(key) ==> json::holds(
                with,
                key,
                config[key],
            )
            &&& !config.contains_key(key) && !input.contains_key(key) ==> !with.contains_key(key)
        }),
        final(strand)@.place == (PlaceView::Running { node, stop_at }),
        final(ctx)@ == old(ctx)@,
{
    let m = entered(
        *wf,
        node,
        json::JsonView::Object(input),
        stop_at,
        old(strand)@.frames,
        old(ctx)@,
        state@,
    );
    steps_run_with_their_configuration(
        *wf,
        node,
        step_id,
        json::JsonView::Object(config),
        json::JsonView::Object(input),
        stop_at,
        old(strand)@.frames,
        old(ctx)@,
        state@,
    );
    assert(r.0@ == m.action);
}

/// A strand whose step is done goes on with its output, which the run remembers and
/// reports.
pub proof fn strands_go_on_with_outputs(
    strand: &mut Strand,
    wf: &Workflow,
    ctx: &mut RunCtx,
    output: Json,
    started: i64,
    ended: i64,
    node: Seq<char>,
    stop_at: Option<Seq<char>>,
    r: Option<WorkflowEvent>,
)
    requires
        call_ensures(
            Strand::on_step,
            (strand, wf, ctx, StepReply::Done(output), started, ended),
            r,
        ),
        old(strand)@.place == (PlaceView::Running { node, stop_at }),
    ensures
        goes_on_with(*wf, node, output@, stop_at, final(strand)@.place),
        final(ctx)@.outputs == old(ctx)@.outputs.insert(node, output@),
        final(ctx)@.results.contains_key(node),
        final(ctx)@.results[node].output == Some(output@),
        final(ctx)@.results[node].status == RunStatus::Success,
{
    outputs_of_steps_go_on(
        *wf,
        node,
        stop_at,
        output,
        started,
        ended,
        old(strand)@.frames,
        old(ctx)@,
    );
}

/// Where every branch has a value, the strand goes on behind the join with all of them, in
/// the order of the branches.
pub proof fn strands_go_on_with_the_values_of_branches(
    strand: &mut Strand,
    wf: &Workflow,
    ctx: &mut RunCtx,
    results: Vec<Outcome>,
    values: Seq<json::JsonView>,
    join: Seq<char>,
    strategy: JoinStrategy,
    stop_at: Option<Seq<char>>,
    r: (),
)
    requires
        call_ensures(Strand::on_branches, (strand, wf, ctx, results), r),
        old(strand)@.place == (PlaceView::Forked { join: Some(join), strategy, stop_at }),
        values.len() == results@.len(),
        forall|i: int|
            0 <= i < values.len() ==> (#[trigger] results@[i])@ == OutcomeView::Value(values[i]),
    ensures
        goes_on_with(*wf, join, json::JsonView::Array(values), stop_at, final(strand)@.place),
        final(ctx)@.outputs == old(ctx)@.outputs.insert(join, json::JsonView::Array(values)),
{
    let all = outcomes_view(results@);
    assert forall|i: int| 0 <= i < all.len() implies (#[trigger] all[i]) is Value || (all[i]
        is Failed && strategy == JoinStrategy::AllSettled) by {
        assert(all[i] == results@[i]@);
    }
    assert(Seq::new(all.len(), |i: int| value_or_null(all[i])) =~= values) by {
        assert forall|i: int| 0 <= i < values.len() implies value_or_null(all[i]) == values[i] by {
            assert(all[i] == results@[i]@);
        }
    }
    joins_give_the_values_of_all_branches(
        *wf,
        Some(join),
        strategy,
        stop_at,
        all,
        old(strand)@.frames,
        old(ctx)@,
    );
}

/// A run begins with what it is handed: its id, its input, the outputs that are known, how
/// far its loops had come and what is resumed; and it has reported nothing.
pub proof fn runs_begin_with_what_is_known(
    run_id: String,
    input: Json,
    resume: Option<(String, Json)>,
    preload: Vec<(String, Json)>,
    loops: Vec<(String, LoopProgress)>,
    r: RunCtx,
)
    requires
        call_ensures(RunCtx::new, (run_id, input, resume, preload, loops), r),
    ensures
        r@.run_id == run_id@,
        r@.input == input@,
        r@.outputs == json::entries_view(preload@),
        r@.loops == memo::progress_view(loops@),
        resume is Some ==> r@.resume == Some(((resume->0).0@, (resume->0).1@)),
        resume is None ==> r@.resume is None,
        forall|node: Seq<char>| !r@.results.contains_key(node),
        r@.suspend is None,
{
}

/// The walk on one item begins with what the run remembers, but for the body of the loop.
pub proof fn items_begin_without_the_body(
    ctx: &RunCtx,
    wf: &Workflow,
    body: &str,
    node: &str,
    r: RunCtx,
    n: Seq<char>,
)
    requires
        call_ensures(RunCtx::child, (ctx, wf, body, node), r),
    ensures
        workflow::reaches(wf.def@.edges, body@, node@, n) ==> !r@.outputs.contains_key(n),
        !workflow::reaches(wf.def@.edges, body@, node@, n) && ctx@.outputs.contains_key(n)
            ==> r@.outputs.contains_key(n) && r@.outputs[n] == ctx@.outputs[n],
        r@.run_id == ctx@.run_id && r@.input == ctx@.input,
        r@.suspend is None && r@.resume is None,
        !r@.results.contains_key(n),
{
}

/// Branches of which one was suspended or, where all must succeed, failed end the walk as
/// the first such branch did, and the join has no output.
pub proof fn branches_without_a_value_end_the_walk(
    wf: Workflow,
    join: Option<Seq<char>>,
    stop_at: Option<Seq<char>>,
    results: Seq<OutcomeView>,
    frames: Seq<FrameView>,
    ctx: CtxView,
    n: int,
)
    requires
        0 <= n < results.len(),
        forall|i: int| 0 <= i < n ==> (#[trigger] results[i]) is Value,
        !(results[n] is Value),
    ensures
        ({
            let m = rejoined(wf, join, JoinStrategy::AllOrFail, stop_at, results, frames, ctx);
            &&& m.place == PlaceView::Ended(results[n])
            &&& m.ctx == ctx
            &&& m.frames == frames
        }),
{
    the_first_branch_without_a_value_decides(results, n);
}

/// A loop with a condition makes no more than ten thousand turns, and as many where its
/// condition keeps it going.
pub proof fn loops_make_ten_thousand_turns_at_most(
    wf: Workflow,
    node: Seq<char>,
    body: Seq<char>,
    going: bool,
    condition: Option<json::JsonView>,
    stop_at: Option<Seq<char>>,
    iter: u32,
    acc: json::JsonView,
    outer: Seq<FrameView>,
    ctx: CtxView,
)
    ensures
        ({
            let m = do_turn(
                wf,
                node,
                body,
                going,
                condition,
                stop_at,
                iter,
                going,
                acc,
                outer,
                ctx,
            );
            &&& iter < 10_000 ==> m.place == (PlaceView::At {
                node: body,
                input: acc,
                stop_at: Some(node),
            }) && m.frames.len() == outer.len() + 1
            &&& iter >= 10_000 ==> goes_on_with(wf, node, acc, stop_at, m.place) && m.frames
                == outer
        }),
{
}

} // verus!
