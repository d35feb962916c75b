use cersei::executor::{
    self, Action, Outcome, RunCtx, Strand, StepReply, SuspendPoint, WorkflowEvent, WorkflowResult,
};
use cersei::json::{self, Json};
use cersei::memo::{LoopProgress, RunStatus};
use cersei::types::CerseiError;
use cersei::workflow::{
    Condition, EdgeKind, JoinStrategy, LoopMode, MapSpec, NodeKind, Workflow, WorkflowDef,
    WorkflowEdge, WorkflowNode,
};
use cersei::workflow_builder::WorkflowBuilder;

fn j(text: &str) -> Json {
    json::parse(text).unwrap()
}

/// A condition `{"at": pointer, "below": n}`: the number there is less than `n`.
fn below(pointer: &str, n: u64) -> Condition {
    Condition { source: j(&format!("{{\"at\":\"{pointer}\",\"below\":{n}}}")) }
}

fn holds(c: &Condition, scope: &Json) -> bool {
    let at = c.source.get("at").unwrap().as_str().unwrap();
    let n = c.source.get("below").unwrap().as_u64().unwrap();
    json::pointer(scope, at).and_then(|v| v.as_u64()).map(|v| v < n).unwrap_or(false)
}

struct World {
    wf: Workflow,
    /// The steps that were run, with their inputs.
    ran: Vec<(String, Json)>,
    events: Vec<WorkflowEvent>,
    state: Json,
}

fn number(v: &Json) -> u64 {
    v.as_u64().unwrap_or(0)
}

impl World {
    fn new(def: WorkflowDef, steps: &[&str]) -> World {
        World {
            wf: Workflow { def, steps: steps.iter().map(|s| s.to_string()).collect() },
            ran: vec![],
            events: vec![],
            state: j("{}"),
        }
    }

    fn step(&mut self, step_id: &str, input: &Json, resume: &Option<Json>) -> StepReply {
        self.ran.push((step_id.to_string(), input.clone()));
        match step_id {
            "inc" => StepReply::Done(Json::UInt(number(input) + 1)),
            "double" => StepReply::Done(Json::UInt(number(input) * 2)),
            "echo" => StepReply::Done(input.clone()),
            "fail" => StepReply::Failed {
                error: CerseiError::Tool("boom".to_string()),
                shown: "tool error: boom".to_string(),
            },
            "ask" => match resume {
                Some(data) => StepReply::Done(data.clone()),
                None => StepReply::Suspended {
                    resume_schema: j("{\"type\":\"number\"}"),
                    payload: Json::str("how many?"),
                },
            },
            // These two ask once, at the number three.
            "tenfold" | "climb" if number(input) == 3 => match resume {
                Some(data) => StepReply::Done(data.clone()),
                None => StepReply::Suspended { resume_schema: Json::Null, payload: Json::Null },
            },
            "tenfold" => StepReply::Done(Json::UInt(number(input) * 10)),
            "climb" => StepReply::Done(Json::UInt(number(input) + 1)),
            other => panic!("no step {other}"),
        }
    }

    fn drive(&mut self, mut strand: Strand, ctx: &mut RunCtx) -> Outcome {
        let (mut action, mut event) = {
            let state = self.state.clone();
            strand.advance(&self.wf, ctx, &state)
        };
        loop {
            self.events.extend(event.take());
            let state = self.state.clone();
            (action, event) = match action {
                Action::Go => strand.advance(&self.wf, ctx, &state),
                Action::Run { step_id, input, resume_data, .. } => {
                    let reply = self.step(&step_id, &input, &resume_data);
                    (Action::Go, strand.on_step(&self.wf, ctx, reply, 100, 130))
                }
                Action::Ask { condition, scope } => {
                    let value = holds(&condition, &scope);
                    strand.on_condition(&self.wf, ctx, &state, value)
                }
                Action::Fork { targets, input, join } => {
                    let mut results = vec![];
                    for t in targets {
                        let branch = Strand::new(t, input.clone(), join.clone());
                        results.push(self.drive(branch, ctx));
                    }
                    strand.on_branches(&self.wf, ctx, results);
                    (Action::Go, None)
                }
                Action::Spread { items, node, body, .. } => {
                    // The last item comes to its end first.
                    let mut order: Vec<usize> = (0..items.len()).collect();
                    order.reverse();
                    let mut failed = false;
                    for i in order {
                        if failed {
                            break;
                        }
                        let mut child = ctx.child(&self.wf, &body, &node);
                        let walk =
                            Strand::new(body.clone(), items[i].clone(), Some(node.clone()));
                        let outcome = self.drive(walk, &mut child);
                        failed = matches!(outcome, Outcome::Failed(_));
                        strand.on_item(&self.wf, ctx, i, outcome, child);
                    }
                    if !failed {
                        strand.on_items_done(&self.wf, ctx);
                    }
                    (Action::Go, None)
                }
                Action::End => return strand.outcome(),
            };
        }
    }

    fn run_with(&mut self, mut ctx: RunCtx, input: Json) -> (WorkflowResult, Option<executor::RunSnapshot>) {
        let entry = self.wf.def.entry.clone();
        let outcome = self.drive(Strand::new(entry, input, None), &mut ctx);
        let shown = format!("{outcome:?}");
        executor::assemble_result(ctx, outcome, shown, self.state.clone())
    }

    fn start(&mut self, input: Json) -> (WorkflowResult, Option<executor::RunSnapshot>) {
        let ctx = RunCtx::new("run".to_string(), input.clone(), None, vec![], vec![]);
        self.run_with(ctx, input)
    }

    fn names(&self) -> Vec<&str> {
        self.ran.iter().map(|(s, _)| s.as_str()).collect()
    }
}

// ─── Building ────────────────────────────────────────────────────────────────

#[test]
fn steps_follow_each_other() {
    let def = WorkflowBuilder::new("w").then_step("a").then_with("b", j("{\"k\":1}")).commit();
    assert_eq!(def.id, "w");
    assert_eq!(def.entry, "a_1");
    let ids: Vec<&str> = def.nodes.iter().map(|n| n.id.as_str()).collect();
    assert_eq!(ids, vec!["a_1", "b_2"]);
    assert_eq!(def.edges.len(), 1);
    assert_eq!((def.edges[0].from.as_str(), def.edges[0].to.as_str()), ("a_1", "b_2"));
    assert!(WorkflowBuilder::new("empty").commit().entry.is_empty());
    let schemas = WorkflowBuilder::new("s")
        .input_schema(Json::UInt(1))
        .output_schema(Json::UInt(2))
        .commit();
    assert_eq!((schemas.input_schema, schemas.output_schema), (Json::UInt(1), Json::UInt(2)));
}

#[test]
fn parallel_steps_are_forked_and_merged() {
    let def = WorkflowBuilder::new("w")
        .parallel(&["a", "b"], JoinStrategy::AllSettled)
        .then_step("c")
        .commit();
    let ids: Vec<&str> = def.nodes.iter().map(|n| n.id.as_str()).collect();
    assert_eq!(ids, vec!["parallel_1", "join_2", "a_3", "b_4", "c_5"]);
    assert_eq!(def.edges.len(), 5);
    let wf = Workflow { def, steps: vec![] };
    assert_eq!(wf.forks("parallel_1"), vec!["a_3".to_string(), "b_4".to_string()]);
    let forks = wf.forks("parallel_1");
    assert_eq!(wf.find_join(&forks), Some("join_2".to_string()));
    assert_eq!(wf.find_join(&vec!["c_5".to_string()]), None);
}

#[test]
fn the_arms_of_a_branch_meet_again() {
    let def = WorkflowBuilder::new("w")
        .branch(vec![(below("/current", 3), "a"), (below("/current", 9), "b")])
        .then_step("c")
        .commit();
    let ids: Vec<&str> = def.nodes.iter().map(|n| n.id.as_str()).collect();
    assert_eq!(ids, vec!["branch_1", "branch_join_2", "a_3", "b_4", "c_5"]);
    let edges: Vec<(&str, &str)> =
        def.edges.iter().map(|e| (e.from.as_str(), e.to.as_str())).collect();
    assert_eq!(
        edges,
        vec![
            ("branch_1", "a_3"),
            ("a_3", "branch_join_2"),
            ("branch_1", "b_4"),
            ("b_4", "branch_join_2"),
            ("branch_join_2", "c_5"),
        ]
    );
    assert_eq!(def.edges[2].kind, EdgeKind::When { condition: below("/current", 9) });
    assert_eq!(def.edges[3].kind, EdgeKind::Then);
}

#[test]
fn loops_have_their_bodies() {
    let def = WorkflowBuilder::new("w").foreach("a", 2).commit();
    assert_eq!(def.entry, "loop_2");
    match &def.nodes[0].kind {
        NodeKind::Loop { mode, body, condition } => {
            assert_eq!(*mode, LoopMode::ForEach { concurrency: 2 });
            assert_eq!(body, "a_1");
            assert!(condition.is_none());
        }
        other => panic!("expected a loop, got {other:?}"),
    }
    let def = WorkflowBuilder::new("w").then_step("x").dowhile("a", below("/current", 3)).commit();
    let ids: Vec<&str> = def.nodes.iter().map(|n| n.id.as_str()).collect();
    assert_eq!(ids, vec!["x_1", "a_2", "loop_3"]);
}

#[test]
fn nodes_are_reached_along_the_edges() {
    let def = WorkflowBuilder::new("w")
        .then_step("a")
        .dountil("b", below("/current", 3))
        .then_step("c")
        .commit();
    let wf = Workflow { def, steps: vec![] };
    let r = wf.reachable("a_1", "");
    assert!(r.contains("a_1") && r.contains("loop_3") && r.contains("c_4"));
    assert!(!r.contains("b_2"));
    let r = wf.reachable("a_1", "loop_3");
    assert!(r.contains("a_1") && !r.contains("loop_3") && !r.contains("c_4"));
    let r = wf.reachable("a_1", "a_1");
    assert!(!r.contains("a_1"));
    // A body does not lead back into its loop.
    let r = wf.reachable("b_2", "loop_3");
    assert!(r.contains("b_2") && r.items.len() == 1);
}

// ─── Running ─────────────────────────────────────────────────────────────────

#[test]
fn a_chain_runs_in_order() {
    let def = WorkflowBuilder::new("w").then_step("inc").then_step("double").commit();
    let mut w = World::new(def, &["inc", "double"]);
    let (r, kept) = w.start(Json::UInt(3));
    assert_eq!(r.status, RunStatus::Success);
    assert_eq!(r.result, Some(Json::UInt(8)));
    assert_eq!(r.run_id, "run");
    assert!(kept.is_none());
    assert_eq!(r.steps.len(), 2);
    let inc = &r.steps.iter().find(|s| s.0 == "inc_1").unwrap().1;
    assert_eq!((inc.started_at, inc.ended_at), (100, Some(130)));
    assert!(w.events.contains(&WorkflowEvent::StepCompleted {
        node_id: "double_2".to_string(),
        output: Json::UInt(8),
        duration_ms: 30,
    }));
}

#[test]
fn configurations_are_merged_under_the_input() {
    assert_eq!(
        executor::merge_config(&j("{\"a\":1,\"b\":2}"), j("{\"b\":3,\"c\":4}")).get("b"),
        Some(&Json::UInt(3))
    );
    let m = executor::merge_config(&j("{\"a\":1,\"b\":2}"), j("{\"b\":3,\"c\":4}"));
    assert_eq!(m.get("a"), Some(&Json::UInt(1)));
    assert_eq!(m.get("c"), Some(&Json::UInt(4)));
    assert_eq!(executor::merge_config(&j("{\"a\":1}"), Json::UInt(5)), Json::UInt(5));
    assert_eq!(executor::merge_config(&Json::Null, j("{}")), j("{}"));
}

#[test]
fn pointers_are_rooted() {
    assert_eq!(executor::normalize_ptr("a/b"), "/a/b");
    assert_eq!(executor::normalize_ptr("/a/b"), "/a/b");
    assert_eq!(executor::normalize_ptr(""), "/");
    assert_eq!(executor::normalize_ptr(&executor::normalize_ptr("x")), "/x");
}

#[test]
fn mappings_pick_values_out_of_the_run() {
    let mapping = MapSpec {
        fields: vec![
            ("first".to_string(), "input/a".to_string()),
            ("now".to_string(), "/current".to_string()),
            ("step".to_string(), "steps/echo_1/a".to_string()),
            ("none".to_string(), "nowhere".to_string()),
        ],
    };
    let def = WorkflowBuilder::new("w").then_step("echo").map(mapping).commit();
    let mut w = World::new(def, &["echo"]);
    let (r, _) = w.start(j("{\"a\":7}"));
    let out = r.result.unwrap();
    assert_eq!(out.get("first"), Some(&Json::UInt(7)));
    assert_eq!(out.get("step"), Some(&Json::UInt(7)));
    assert_eq!(out.get("now").unwrap().get("a"), Some(&Json::UInt(7)));
    assert_eq!(out.get("none"), Some(&Json::Null));
}

#[test]
fn parallel_values_keep_their_order() {
    let def = WorkflowBuilder::new("w")
        .parallel(&["inc", "double", "echo"], JoinStrategy::AllOrFail)
        .then_step("echo")
        .commit();
    let mut w = World::new(def, &["inc", "double", "echo"]);
    let (r, _) = w.start(Json::UInt(5));
    assert_eq!(r.result, Some(j("[6,10,5]")));
}

#[test]
fn a_failing_branch_fails_or_is_null() {
    let build = |s| WorkflowBuilder::new("w").parallel(&["inc", "fail", "double"], s).commit();
    let steps = ["inc", "fail", "double"];
    let (r, _) = World::new(build(JoinStrategy::AllSettled), &steps).start(Json::UInt(1));
    assert_eq!(r.result, Some(j("[2,null,2]")));
    let (r, _) = World::new(build(JoinStrategy::AllOrFail), &steps).start(Json::UInt(1));
    assert_eq!(r.status, RunStatus::Failed);
    assert!(r.error.unwrap().contains("boom"));
    assert_eq!(r.result, None);
}

#[test]
fn the_first_arm_that_holds_is_taken() {
    let build = || {
        WorkflowBuilder::new("w")
            .branch(vec![(below("/current", 3), "inc"), (below("/current", 10), "double")])
            .then_step("echo")
            .commit()
    };
    let steps = ["inc", "double", "echo"];
    let mut w = World::new(build(), &steps);
    assert_eq!(w.start(Json::UInt(2)).0.result, Some(Json::UInt(3)));
    assert_eq!(w.names(), vec!["inc", "echo"]);
    let mut w = World::new(build(), &steps);
    assert_eq!(w.start(Json::UInt(5)).0.result, Some(Json::UInt(10)));
    assert_eq!(w.names(), vec!["double", "echo"]);
    // No arm holds and nothing else follows the branch.
    let mut w = World::new(build(), &steps);
    assert_eq!(w.start(Json::UInt(50)).0.result, Some(Json::UInt(50)));
    assert!(w.names().is_empty());
}

#[test]
fn loops_run_while_or_until() {
    let def = WorkflowBuilder::new("w")
        .then_step("echo")
        .dowhile("inc", below("/current", 5))
        .then_step("double")
        .commit();
    let mut w = World::new(def, &["echo", "inc", "double"]);
    assert_eq!(w.start(Json::UInt(1)).0.result, Some(Json::UInt(10)));
    assert!(w.events.contains(&WorkflowEvent::LoopIteration {
        node_id: "loop_3".to_string(),
        iteration: 4,
    }));
    let def = WorkflowBuilder::new("w")
        .then_step("echo")
        .dountil("double", below("/current", 1000))
        .commit();
    let mut w = World::new(def, &["echo", "double"]);
    // The body runs once before the condition is looked at.
    assert_eq!(w.start(Json::UInt(2)).0.result, Some(Json::UInt(4)));
}

#[test]
fn loops_end_after_the_most_turns() {
    let def = WorkflowBuilder::new("w")
        .then_step("echo")
        .dowhile("inc", below("/current", u64::MAX))
        .commit();
    let mut w = World::new(def, &["echo", "inc"]);
    assert_eq!(w.start(Json::UInt(0)).0.result, Some(Json::UInt(10_000)));
}

#[test]
fn items_are_walked_one_by_one() {
    let def = WorkflowBuilder::new("w").foreach("inc", 1).then_step("echo").commit();
    let mut w = World::new(def, &["inc", "echo"]);
    assert_eq!(w.start(j("[1,2,3]")).0.result, Some(j("[2,3,4]")));
    assert_eq!(w.start(j("[]")).0.result, Some(j("[]")));
    let (r, _) = w.start(Json::UInt(4));
    assert_eq!(r.status, RunStatus::Failed);
    assert!(r.error.unwrap().contains("foreach input is not an array"));
}

#[test]
fn items_walked_together_keep_their_order() {
    let def = WorkflowBuilder::new("w").foreach("double", 4).then_step("echo").commit();
    let mut w = World::new(def, &["double", "echo"]);
    let (r, _) = w.start(j("[1,2,3,4,5]"));
    assert_eq!(r.result, Some(j("[2,4,6,8,10]")));
    // The last item was run first.
    assert_eq!(w.ran[0].1, Json::UInt(5));
    assert!(r.steps.iter().any(|s| s.0 == "double_1"));
}

#[test]
fn an_item_that_fails_ends_the_loop() {
    for concurrency in [1, 3] {
        let def = WorkflowBuilder::new("w").foreach("fail", concurrency).commit();
        let mut w = World::new(def, &["fail"]);
        let (r, _) = w.start(j("[1,2]"));
        assert_eq!(r.status, RunStatus::Failed);
        assert_eq!(w.ran.len(), 1);
    }
}

#[test]
fn an_item_that_suspends_suspends_the_run() {
    let def = WorkflowBuilder::new("w").foreach("ask", 2).commit();
    let mut w = World::new(def, &["ask"]);
    let (r, kept) = w.start(j("[1,2]"));
    assert_eq!(r.status, RunStatus::Suspended);
    assert_eq!(r.suspended.len(), 1);
    assert!(kept.is_some());
}

#[test]
fn unknown_steps_and_missing_nodes_fail() {
    let def = WorkflowBuilder::new("w").then_step("gone").commit();
    let (r, _) = World::new(def, &[]).start(Json::Null);
    assert!(r.error.unwrap().contains("unknown step: 'gone'"));
    let (r, _) = World::new(WorkflowBuilder::new("w").commit(), &[]).start(Json::Null);
    assert!(r.error.unwrap().contains("missing node ''"));
}

#[test]
fn a_suspended_run_goes_on_where_it_stopped() {
    let def = WorkflowBuilder::new("w")
        .then_step("inc")
        .then_step("ask")
        .then_step("double")
        .commit();
    let mut w = World::new(def, &["inc", "ask", "double"]);
    let (r, kept) = w.start(Json::UInt(1));
    assert_eq!(r.status, RunStatus::Suspended);
    assert_eq!(
        r.suspended,
        vec![SuspendPoint {
            node_id: "ask_2".to_string(),
            resume_schema: j("{\"type\":\"number\"}"),
            payload: Json::str("how many?"),
        }]
    );
    assert_eq!(w.names(), vec!["inc", "ask"]);

    let kept = kept.unwrap();
    assert_eq!(kept.run_id, "run");
    w.ran.clear();
    let ctx = RunCtx::new(
        kept.run_id,
        kept.input.clone(),
        Some(("ask_2".to_string(), Json::UInt(21))),
        kept.outputs,
        kept.loops,
    );
    let (r, _) = w.run_with(ctx, kept.input);
    assert_eq!(r.status, RunStatus::Success);
    assert_eq!(r.result, Some(Json::UInt(42)));
    // What was done before is not done again.
    assert_eq!(w.names(), vec!["ask", "double"]);
}

/// Resumes a suspended run at a node, and forgets which steps were run before.
fn resume(w: &mut World, kept: executor::RunSnapshot, node: &str, data: Json) -> WorkflowResult {
    w.ran.clear();
    let ctx = RunCtx::new(
        kept.run_id,
        kept.input.clone(),
        Some((node.to_string(), data)),
        kept.outputs,
        kept.loops,
    );
    w.run_with(ctx, kept.input).0
}

#[test]
fn a_run_that_is_resumed_behind_a_loop_does_not_run_it_again() {
    let def = WorkflowBuilder::new("w")
        .then_step("echo")
        .dowhile("inc", below("/current", 5))
        .then_step("ask")
        .then_step("double")
        .commit();
    let mut w = World::new(def, &["echo", "inc", "ask", "double"]);
    let (r, kept) = w.start(Json::UInt(1));
    assert_eq!(r.status, RunStatus::Suspended);
    assert_eq!(w.names(), vec!["echo", "inc", "inc", "inc", "inc", "ask"]);
    w.events.clear();
    let r = resume(&mut w, kept.unwrap(), "ask_4", Json::UInt(21));
    assert_eq!(r.status, RunStatus::Success);
    assert_eq!(r.result, Some(Json::UInt(42)));
    assert_eq!(r.run_id, "run");
    assert_eq!(r.input, Json::UInt(1));
    assert_eq!(w.names(), vec!["ask", "double"]);
    // What the loop gave is what the resumed step got.
    assert_eq!(w.ran[0].1, Json::UInt(5));
    assert!(!w.events.iter().any(|e| matches!(e, WorkflowEvent::LoopIteration { .. })));
}

#[test]
fn a_run_that_is_resumed_behind_items_does_not_walk_them_again() {
    for concurrency in [1, 3] {
        let def = WorkflowBuilder::new("w")
            .foreach("double", concurrency)
            .then_step("ask")
            .commit();
        let mut w = World::new(def, &["double", "ask"]);
        let (_, kept) = w.start(j("[1,2]"));
        let r = resume(&mut w, kept.unwrap(), "ask_3", Json::UInt(7));
        assert_eq!(r.result, Some(Json::UInt(7)));
        assert_eq!(w.ran, vec![("ask".to_string(), j("[2,4]"))]);
    }
}

#[test]
fn a_run_that_is_resumed_behind_a_fork_does_not_fork_again() {
    let def = WorkflowBuilder::new("w")
        .parallel(&["inc", "fail"], JoinStrategy::AllSettled)
        .map(MapSpec { fields: vec![("all".to_string(), "/current".to_string())] })
        .then_step("ask")
        .commit();
    let mut w = World::new(def, &["inc", "fail", "ask"]);
    let (r, kept) = w.start(Json::UInt(1));
    assert_eq!(r.status, RunStatus::Suspended);
    assert_eq!(w.names(), vec!["inc", "fail", "ask"]);
    // The state that the steps share has changed, what was computed has not.
    w.state = j("{\"later\":true}");
    let r = resume(&mut w, kept.unwrap(), "ask_6", Json::UInt(7));
    assert_eq!(r.result, Some(Json::UInt(7)));
    assert_eq!(w.ran, vec![("ask".to_string(), j("{\"all\":[2,null]}"))]);
}

/// A loop with a body of two steps: the second asks.
fn loop_that_asks(mode: LoopMode, condition: Option<Condition>) -> WorkflowDef {
    let mut def = WorkflowBuilder::new("w").then_step("echo").commit();
    let step = |id: &str, step_id: &str| {
        let kind = NodeKind::Step { step_id: step_id.to_string(), config: Json::Null };
        WorkflowNode::new(id.to_string(), kind)
    };
    let edge = |from: &str, to: &str, kind: EdgeKind| {
        WorkflowEdge::new(from.to_string(), to.to_string(), kind)
    };
    let kind = NodeKind::Loop { mode, body: "first".to_string(), condition };
    def.nodes.push(WorkflowNode::new("loop".to_string(), kind));
    def.nodes.push(step("first", "inc"));
    def.nodes.push(step("second", "ask"));
    def.edges.push(edge("echo_1", "loop", EdgeKind::Then));
    def.edges.push(edge("first", "second", EdgeKind::Then));
    def.edges.push(edge("second", "loop", EdgeKind::LoopBack));
    def
}

#[test]
fn a_turn_that_is_resumed_goes_on_where_it_stopped() {
    let def = loop_that_asks(LoopMode::DoWhile, Some(below("/current", 5)));
    let mut w = World::new(def, &["echo", "inc", "ask"]);
    let (r, kept) = w.start(Json::UInt(1));
    assert_eq!(r.status, RunStatus::Suspended);
    assert_eq!(w.names(), vec!["echo", "inc", "ask"]);
    let r = resume(&mut w, kept.unwrap(), "second", Json::UInt(9));
    assert_eq!(r.status, RunStatus::Success);
    assert_eq!(r.result, Some(Json::UInt(9)));
    // The first step of the body is not run again in the turn that was suspended.
    assert_eq!(w.ran, vec![("ask".to_string(), Json::UInt(2))]);
}

#[test]
fn turns_after_a_resumed_one_run_the_whole_body() {
    let def = loop_that_asks(LoopMode::ForEach { concurrency: 1 }, None);
    let mut w = World::new(def, &["echo", "inc", "ask"]);
    let (_, kept) = w.start(j("[1,5]"));
    assert_eq!(w.names(), vec!["echo", "inc", "ask"]);
    let r = resume(&mut w, kept.unwrap(), "second", Json::UInt(9));
    assert_eq!(r.result, Some(j("[9,9]")));
    assert_eq!(w.names(), vec!["ask", "inc", "ask"]);
    assert_eq!(w.ran[1].1, Json::UInt(5));
}

#[test]
fn a_loop_over_items_goes_on_at_the_item_where_it_stopped() {
    let def = WorkflowBuilder::new("w").foreach("tenfold", 1).then_step("echo").commit();
    let mut w = World::new(def, &["tenfold", "echo"]);
    let (r, kept) = w.start(j("[1,2,3,4]"));
    assert_eq!(r.status, RunStatus::Suspended);
    let kept = kept.unwrap();
    let values = vec![Json::UInt(10), Json::UInt(20)];
    assert_eq!(kept.loops, vec![("loop_2".to_string(), LoopProgress::Each { values })]);
    let r = resume(&mut w, kept, "tenfold_1", Json::UInt(99));
    assert_eq!(r.result, Some(j("[10,20,99,40]")));
    assert_eq!(w.names(), vec!["tenfold", "tenfold", "echo"]);
    assert_eq!((&w.ran[0].1, &w.ran[1].1), (&Json::UInt(3), &Json::UInt(4)));
}

#[test]
fn a_loop_with_a_condition_goes_on_in_the_turn_it_stopped_in() {
    let def = WorkflowBuilder::new("w")
        .then_step("echo")
        .dowhile("climb", below("/current", 6))
        .commit();
    let mut w = World::new(def, &["echo", "climb"]);
    let (r, kept) = w.start(Json::UInt(1));
    assert_eq!(r.status, RunStatus::Suspended);
    let kept = kept.unwrap();
    let progress = LoopProgress::Turns { turns: 2, acc: Json::UInt(3) };
    assert_eq!(kept.loops, vec![("loop_3".to_string(), progress)]);
    w.events.clear();
    let r = resume(&mut w, kept, "climb_2", Json::UInt(4));
    assert_eq!(r.result, Some(Json::UInt(6)));
    assert_eq!(w.names(), vec!["climb", "climb", "climb"]);
    let turns: Vec<u32> = w
        .events
        .iter()
        .filter_map(|e| match e {
            WorkflowEvent::LoopIteration { iteration, .. } => Some(*iteration),
            _ => None,
        })
        .collect();
    assert_eq!(turns, vec![3, 4, 5]);
}

#[test]
fn loops_in_loops_go_on_where_they_stopped() {
    let mut def = WorkflowBuilder::new("w").commit();
    let each = |body: &str| NodeKind::Loop {
        mode: LoopMode::ForEach { concurrency: 1 },
        body: body.to_string(),
        condition: None,
    };
    let step = NodeKind::Step { step_id: "tenfold".to_string(), config: Json::Null };
    def.entry = "outer".to_string();
    def.nodes.push(WorkflowNode::new("outer".to_string(), each("inner")));
    def.nodes.push(WorkflowNode::new("inner".to_string(), each("step")));
    def.nodes.push(WorkflowNode::new("step".to_string(), step));
    for (from, to) in [("inner", "outer"), ("step", "inner")] {
        def.edges.push(WorkflowEdge::new(from.to_string(), to.to_string(), EdgeKind::LoopBack));
    }
    let mut w = World::new(def, &["tenfold"]);
    let (r, kept) = w.start(j("[[1,2],[4,3,5],[6]]"));
    assert_eq!(r.status, RunStatus::Suspended);
    let r = resume(&mut w, kept.unwrap(), "step", Json::UInt(99));
    assert_eq!(r.result, Some(j("[[10,20],[40,99,50],[60]]")));
    let inputs: Vec<u64> = w.ran.iter().map(|(_, input)| number(input)).collect();
    assert_eq!(inputs, vec![3, 5, 6]);
}

#[test]
fn a_loop_that_did_not_stop_forgets_its_body_before_each_turn() {
    let def = WorkflowBuilder::new("w").foreach("double", 1).then_step("ask").commit();
    let mut w = World::new(def, &["double", "ask"]);
    let ctx = RunCtx::new(
        "run".to_string(),
        j("[1,2]"),
        Some(("ask_3".to_string(), Json::UInt(7))),
        vec![("double_1".to_string(), Json::UInt(4))],
        vec![],
    );
    w.run_with(ctx, j("[1,2]"));
    assert_eq!(w.ran.last(), Some(&("ask".to_string(), j("[2,4]"))));
    assert_eq!(w.names(), vec!["double", "double", "ask"]);
    // A loop cannot have stopped behind its last item.
    let values = vec![Json::UInt(0), Json::UInt(0)];
    let ctx = RunCtx::new(
        "run".to_string(),
        j("[1,2]"),
        None,
        vec![],
        vec![("loop_2".to_string(), LoopProgress::Each { values })],
    );
    w.run_with(ctx, j("[1,2]"));
    assert_eq!(w.ran.last(), Some(&("ask".to_string(), j("[2,4]"))));
}

#[test]
fn ways_that_meet_run_a_node_once() {
    // Both branches lead through the same loop.
    let mut def = WorkflowBuilder::new("w")
        .parallel(&["inc", "echo"], JoinStrategy::AllOrFail)
        .commit();
    let kind = NodeKind::Loop {
        mode: LoopMode::DoUntil,
        body: "body".to_string(),
        condition: Some(below("/current", 100)),
    };
    def.nodes.push(WorkflowNode::new("both".to_string(), kind));
    let step = NodeKind::Step { step_id: "double".to_string(), config: Json::Null };
    def.nodes.push(WorkflowNode::new("body".to_string(), step));
    for from in ["inc_3", "echo_4"] {
        def.edges.push(WorkflowEdge::new(from.to_string(), "both".to_string(), EdgeKind::Then));
    }
    let back = WorkflowEdge::new("body".to_string(), "both".to_string(), EdgeKind::LoopBack);
    def.edges.push(back);
    let mut w = World::new(def, &["inc", "echo", "double"]);
    let (r, _) = w.start(Json::UInt(1));
    assert_eq!(r.status, RunStatus::Success);
    assert_eq!(r.result, Some(j("[4,4]")));
    assert_eq!(w.names(), vec!["inc", "double", "echo"]);
}

#[test]
fn nothing_begins_after_a_suspension() {
    let def = WorkflowBuilder::new("w")
        .parallel(&["ask", "inc"], JoinStrategy::AllOrFail)
        .then_step("echo")
        .commit();
    let mut w = World::new(def, &["ask", "inc", "echo"]);
    let (r, kept) = w.start(Json::UInt(1));
    assert_eq!(r.status, RunStatus::Suspended);
    assert_eq!(w.names(), vec!["ask"]);
    assert!(kept.is_some());
}

#[test]
fn a_run_that_is_not_suspended_cannot_be_resumed() {
    assert_eq!(
        executor::no_suspended_run("r1"),
        CerseiError::Config("no suspended run 'r1'".to_string())
    );
}
