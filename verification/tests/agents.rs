use cersei::agent::{self, Agent, ToolCallRecord};
use cersei::benchmark::{self, BenchmarkVerification};
use cersei::json::{self, Json};
use cersei::runner::{
    self, AgentEvent, AgentRun, HookAction, PermissionDecision, RunSettings, ToolPlan, ToolResult,
    ToolUse, Work,
};
use cersei::tool_results;
use cersei::types::{
    CerseiError, ContentBlock, Message, MessageContent, StopReason, StreamErrorKind, StreamEvent,
    ToolResultContent, Usage,
};

struct StubProvider;

fn settings(max_turns: u32) -> RunSettings {
    let agent: Agent<StubProvider, ()> =
        Agent::builder().provider(StubProvider).max_turns(max_turns).build(None).unwrap();
    runner::run_settings(&agent, false, "standard")
}

fn reply(text: &str) -> Vec<StreamEvent> {
    let mut events = vec![
        StreamEvent::MessageStart { id: "1".to_string(), model: "flaky".to_string() },
        StreamEvent::ContentBlockStart {
            index: 0,
            block_type: "text".to_string(),
            id: None,
            name: None,
        },
    ];
    events.push(StreamEvent::TextDelta { index: 0, text: text.to_string() });
    events.push(StreamEvent::ContentBlockStop { index: 0 });
    events.push(StreamEvent::MessageDelta {
        stop_reason: Some(StopReason::EndTurn),
        usage: Some(Usage::default()),
    });
    events.push(StreamEvent::MessageStop);
    events
}

/// Runs an agent against a provider that answers call number `n` with `answer(n)`.
fn drive(
    settings: RunSettings,
    prompt: &str,
    answer: &dyn Fn(u32) -> Vec<StreamEvent>,
) -> (Result<AgentRun, CerseiError>, u32, Vec<AgentEvent>) {
    let mut calls = 0;
    let mut told = vec![];
    let (mut run, mut step) = AgentRun::start(settings, prompt, vec![], Usage::default());
    let mut pending = vec![];
    loop {
        told.extend(step.events);
        step = match step.work {
            Work::BeginTurn => run.on_turn(false, 0, vec![]),
            Work::Complete(_) | Work::Backoff { .. } => {
                pending = answer(calls);
                pending.reverse();
                calls += 1;
                run.on_completion(Ok(()))
            }
            Work::ReadStream => match pending.pop() {
                Some(e) => run.on_stream(e),
                None => run.on_stream_end(),
            },
            Work::RunHooks { .. } => run.on_hooks(None),
            Work::TurnsElapsed => run.on_elapsed(),
            Work::RunTools(uses) => {
                for u in uses {
                    let result = ToolResult { content: "done".to_string(), is_error: false };
                    let settled = run.settle(&u, result, false);
                    let shown = settled.content.clone();
                    told.push(run.record(u, settled, &shown, 5));
                }
                run.on_tools_done()
            }
            Work::Compact => run.on_compaction(false, None, 0),
            Work::Finish => return (Ok(run), calls, told),
            Work::Fail(e) => return (Err(e), calls, told),
            other => panic!("unexpected work: {other:?}"),
        };
    }
}

fn flaky(failures: u32) -> impl Fn(u32) -> Vec<StreamEvent> {
    move |n| {
        if n < failures {
            vec![StreamEvent::Error {
                message: "error sending request".to_string(),
                kind: StreamErrorKind::Transport,
            }]
        } else {
            reply("recovered")
        }
    }
}

#[test]
fn cumulative_usage_defaults_to_zero() {
    let agent: Agent<StubProvider, ()> =
        Agent::builder().provider(StubProvider).build(None).unwrap();
    assert_eq!(agent.usage().input_tokens, 0);
    assert_eq!(agent.usage().output_tokens, 0);
}

#[test]
fn seeded_cumulative_usage_is_restored() {
    let seed = Usage { input_tokens: 1234, output_tokens: 567, total_tokens: 1801 };
    let agent: Agent<StubProvider, ()> = Agent::builder()
        .provider(StubProvider)
        .with_cumulative_usage(seed.clone())
        .build(None)
        .unwrap();
    let restored = agent.usage();
    assert_eq!(restored.input_tokens, 1234);
    assert_eq!(restored.output_tokens, 567);
    assert_eq!(restored.total_tokens, 1801);
}

#[test]
fn an_agent_needs_a_provider() {
    let r: Result<Agent<StubProvider, ()>, CerseiError> = Agent::builder().build(None);
    match r {
        Err(e) => assert_eq!(e, CerseiError::Config("Provider is required".to_string())),
        Ok(_) => panic!("expected an error"),
    }
}

#[test]
fn pre_stream_transport_error_is_retried() {
    let (run, calls, _) = drive(settings(2), "hello", &flaky(2));
    let output = run.expect("run succeeds").into_output();
    assert_eq!(output.text(), "recovered");
    // Two failed attempts were re-issued before the one that succeeded.
    assert_eq!(calls, 3);
}

#[test]
fn transport_errors_surface_after_retries_exhausted() {
    let (run, calls, _) = drive(settings(2), "hello", &flaky(u32::MAX));
    match run {
        Err(CerseiError::Transport(_)) => {}
        Err(other) => panic!("got: {other:?}"),
        Ok(_) => panic!("run fails"),
    }
    // The initial attempt plus five backoff re-issues.
    assert_eq!(calls, 6);
}

#[test]
fn a_response_that_has_begun_is_not_repeated() {
    let broken = |_| {
        vec![
            StreamEvent::MessageStart { id: "1".to_string(), model: "m".to_string() },
            StreamEvent::Error { message: "cut".to_string(), kind: StreamErrorKind::Transport },
        ]
    };
    let (run, calls, _) = drive(settings(2), "hello", &broken);
    assert!(run.is_err());
    assert_eq!(calls, 1);
}

#[test]
fn lasting_errors_are_not_retried() {
    let refused = |_| {
        vec![StreamEvent::Error {
            message: "bad".to_string(),
            kind: StreamErrorKind::Http { status: 400 },
        }]
    };
    let (run, calls, _) = drive(settings(2), "hello", &refused);
    assert!(run.is_err());
    assert_eq!(calls, 1);
}

#[test]
fn blocking_run_survives_more_than_512_stream_events() {
    let torrent = |_| {
        let mut events = reply("tok ");
        for _ in 1..2_000 {
            events.insert(2, StreamEvent::TextDelta { index: 0, text: "tok ".to_string() });
        }
        events
    };
    let (run, _, told) = drive(settings(1), "go", &torrent);
    let output = run.expect("run succeeds").into_output();
    assert_eq!(output.text(), "tok ".repeat(2_000));
    let deltas = told.iter().filter(|e| matches!(e, AgentEvent::TextDelta(_))).count();
    assert_eq!(deltas, 2_000);
}

#[test]
fn turns_are_limited() {
    let call = |n: u32| {
        let mut events = reply("thinking");
        events.insert(
            4,
            StreamEvent::ContentBlockStart {
                index: 1,
                block_type: "tool_use".to_string(),
                id: Some(format!("t{n}")),
                name: Some("Look".to_string()),
            },
        );
        events.insert(
            5,
            StreamEvent::InputJsonDelta { index: 1, partial_json: format!("{{\"n\":{n}}}") },
        );
        events.insert(6, StreamEvent::ContentBlockStop { index: 1 });
        events[7] = StreamEvent::MessageDelta {
            stop_reason: Some(StopReason::ToolUse),
            usage: Some(Usage { input_tokens: 1, output_tokens: 2, total_tokens: 3 }),
        };
        events
    };
    let (run, calls, told) = drive(settings(3), "go", &call);
    let run = run.expect("run ends");
    assert_eq!(calls, 3);
    assert_eq!(run.usage.total_tokens, 9);
    let output = run.into_output();
    assert_eq!(output.tool_calls.len(), 3);
    assert_eq!(output.tool_calls[1].id, "t1");
    let starts = told.iter().filter(|e| matches!(e, AgentEvent::TurnStart { .. })).count();
    assert_eq!(starts, 3);
}

#[test]
fn cancelled_runs_fail() {
    let (mut run, _) = AgentRun::start(settings(3), "go", vec![], Usage::default());
    assert_eq!(run.on_turn(true, 0, vec![]).work, Work::Fail(CerseiError::Cancelled));
}

#[test]
fn histories_are_loaded_before_the_prompt() {
    let mut s = settings(3);
    s.session_id = Some("s1".to_string());
    s.has_memory = true;
    let (mut run, step) = AgentRun::start(s, "go", vec![], Usage::default());
    assert_eq!(step.work, Work::LoadHistory { session_id: "s1".to_string() });
    let step = run.on_history(Ok(vec![Message::user("before")]));
    assert_eq!(step.work, Work::BeginTurn);
    assert_eq!(
        step.events,
        vec![AgentEvent::SessionLoaded { session_id: "s1".to_string(), message_count: 1 }]
    );
    assert_eq!(run.messages.len(), 2);
    assert_eq!(run.messages[0].get_all_text(), "before");
}

fn use_of(name: &str, input: &str) -> ToolUse {
    ToolUse {
        id: "u".to_string(),
        name: name.to_string(),
        input: json::parse(input).unwrap(),
    }
}

fn fine() -> ToolResult {
    ToolResult { content: "fine".to_string(), is_error: false }
}

#[test]
fn files_are_read_before_they_are_edited() {
    let (mut run, _) = AgentRun::start(settings(3), "go", vec![], Usage::default());
    let edit = use_of("Edit", "{\"file_path\":\"/a\"}");
    assert_eq!(run.edit_target(&edit, false), Some("/a".to_string()));
    let refused = run.settle(&edit, fine(), true);
    assert_ne!(refused, fine());
    let read = use_of("Read", "{\"file_path\":\"/a\"}");
    assert_eq!(run.settle(&read, fine(), true), fine());
    assert_eq!(run.settle(&edit, fine(), true), fine());
}

#[test]
fn backoff_grows_and_is_bounded() {
    let delays: Vec<u64> = (1..=7).map(|n| runner::backoff_delay(n, 0)).collect();
    assert_eq!(delays, vec![1000, 2000, 4000, 8000, 16000, 30000, 30000]);
    assert_eq!(runner::backoff_delay(2, 501), 2001);
    assert!(runner::backoff_delay(55, u64::MAX) < 37_500);
    assert_eq!(runner::jitter_from(12345), 1_584_313);
}

#[test]
fn calls_are_planned_and_refused() {
    let names = vec!["Read".to_string(), "Edit".to_string()];
    assert_eq!(runner::find_tool(&names, "Edit"), Some(1));
    assert_eq!(runner::find_tool(&names, "Nope"), None);
    assert!(runner::unknown_tool("Nope").is_error);
    assert!(runner::unknown_tool("Nope").content.contains("Nope"));
    assert_eq!(runner::refused(PermissionDecision::Allow), None);
    assert_eq!(runner::refused(PermissionDecision::AllowOnce), None);
    assert_eq!(runner::refused(PermissionDecision::AllowForSession), None);
    assert!(runner::refused(PermissionDecision::Deny("no".to_string())).unwrap().is_error);
    assert_eq!(
        runner::plan_call(HookAction::Continue, Json::UInt(1)),
        ToolPlan::Execute(Json::UInt(1))
    );
    assert_eq!(
        runner::plan_call(HookAction::ModifyInput(Json::UInt(2)), Json::UInt(1)),
        ToolPlan::Execute(Json::UInt(2))
    );
    assert!(matches!(
        runner::plan_call(HookAction::Block("x".to_string()), Json::Null),
        ToolPlan::Answer(ToolResult { is_error: true, .. })
    ));
}

#[test]
fn cadences_fire_at_their_multiples() {
    assert!(agent::cadence_due(6, 3));
    assert!(!agent::cadence_due(7, 3));
    assert!(!agent::cadence_due(7, 0));
}

fn test_call(command: &str, result: &str, is_error: bool) -> ToolCallRecord {
    ToolCallRecord {
        name: "Bash".to_string(),
        id: "b".to_string(),
        input: json::parse(&format!("{{\"command\":\"{command}\"}}")).unwrap(),
        result: result.to_string(),
        is_error,
        duration_nanos: 0,
    }
}

#[test]
fn the_latest_tests_count() {
    assert_eq!(
        benchmark::benchmark_check_tests(&vec![test_call("ls", "x", false)]),
        BenchmarkVerification::TestsNotRun
    );
    let failing = test_call("pytest -q", "2 FAILED, 1 error", false);
    let passing = test_call("cargo test", "ok. 5 passed; 0 failed", false);
    assert!(matches!(
        benchmark::benchmark_check_tests(&vec![passing.clone(), failing.clone()]),
        BenchmarkVerification::TestsFailed(_)
    ));
    assert_eq!(
        benchmark::benchmark_check_tests(&vec![failing, passing]),
        BenchmarkVerification::TestsPassed
    );
    assert!(matches!(
        benchmark::benchmark_check_tests(&vec![test_call("npm test", "all good", true)]),
        BenchmarkVerification::TestsFailed(_)
    ));
    assert_eq!(
        benchmark::benchmark_check_tests(&vec![test_call("go test", "2 FAILED", false)]),
        BenchmarkVerification::TestsFailed("2 FAILED".to_string())
    );
}

#[test]
fn long_results_keep_their_ends() {
    let short = "a\nb";
    assert_eq!(tool_results::cap_tool_result(short), short);
    let long: String = (0..400).map(|i| format!("line {i}\n")).collect();
    let capped = tool_results::cap_tool_result(&long);
    assert!(capped.len() < long.len());
    assert!(capped.starts_with("line 0\n"));
    assert!(capped.contains("line 399"));
    assert!(!capped.contains("line 200\n"));
    let wide = "x".repeat(30_000);
    assert!(tool_results::cap_tool_result(&wide).len() < 30_000);
}

fn result_message(text: &str) -> Message {
    Message::user_blocks(vec![ContentBlock::ToolResult {
        tool_use_id: "t".to_string(),
        content: ToolResultContent::Text(text.to_string()),
        is_error: None,
    }])
}

fn result_length(m: &Message) -> usize {
    match &m.content {
        MessageContent::Blocks(b) => match &b[0] {
            ContentBlock::ToolResult { content: ToolResultContent::Text(t), .. } => t.len(),
            other => panic!("expected a result, got {other:?}"),
        },
        other => panic!("expected blocks, got {other:?}"),
    }
}

#[test]
fn old_results_are_shortened_first() {
    let big = "y".repeat(5_000);
    let mut messages: Vec<Message> = (0..10).map(|_| result_message(&big)).collect();
    let untouched = messages.clone();
    tool_results::apply_tool_result_budget(&mut messages, 1_000_000);
    assert_eq!(messages, untouched);
    tool_results::apply_tool_result_budget(&mut messages, 42_000);
    assert!(result_length(&messages[0]) < 5_000);
    assert_eq!(result_length(&messages[9]), 5_000);
    assert_eq!(messages.len(), 10);
}

#[test]
fn usage_adds_up_without_overflow() {
    let mut u = Usage { input_tokens: 1, output_tokens: 2, total_tokens: u64::MAX };
    u.merge(&Usage { input_tokens: 3, output_tokens: 4, total_tokens: 5 });
    assert_eq!(u, Usage { input_tokens: 4, output_tokens: 6, total_tokens: u64::MAX });
}

fn started(prompt: &str) -> AgentRun {
    let mut s = settings(50);
    s.auto_compact = true;
    AgentRun::start(s, prompt, vec![], Usage::default()).0
}

fn last_text(run: &AgentRun) -> String {
    run.messages.last().unwrap().get_all_text()
}

fn statuses(events: &[AgentEvent]) -> Vec<String> {
    let mut found = vec![];
    for e in events {
        if let AgentEvent::Status(s) = e {
            found.push(s.clone());
        }
    }
    found
}

#[test]
fn finished_models_look_at_their_work_first() {
    let mut run = started("write a file");
    run.settings.benchmark_mode = true;
    run.turn = 2;
    assert_eq!(run.on_hooks(None).work, Work::Finish);
    run.turn = 3;
    let step = run.on_hooks(None);
    assert_eq!(step.work, Work::BeginTurn);
    assert_eq!(statuses(&step.events), vec!["Nudging agent to verify before completion"]);
    assert_eq!(last_text(&run), runner::VERIFY_NUDGE);
    // Once is enough.
    assert_eq!(run.on_hooks(None).work, Work::Finish);

    let mut run = started("write a file");
    run.settings.benchmark_mode = true;
    run.turn = 3;
    run.tool_calls.push(test_call("cat out.txt", "42", false));
    assert_eq!(run.on_hooks(None).work, Work::Finish);
    // Only the last five calls count.
    for _ in 0..5 {
        run.tool_calls.push(test_call("ls", "", false));
    }
    assert_eq!(run.on_hooks(None).work, Work::BeginTurn);
}

#[test]
fn tests_that_the_prompt_names_decide() {
    let mut run = started("fix it, then run pytest");
    run.settings.benchmark_mode = true;
    run.turn = 1;
    let step = run.on_hooks(None);
    assert_eq!(step.work, Work::BeginTurn);
    assert_eq!(last_text(&run), runner::RUN_TESTS_NUDGE);
    // They were not run in spite of that.
    assert_eq!(run.on_hooks(None).work, Work::Finish);

    let mut run = started("fix it, then run pytest");
    run.settings.benchmark_mode = true;
    run.turn = 1;
    let long = "x".repeat(4_000);
    run.tool_calls.push(test_call("pytest", &long, true));
    for attempt in 1..=4 {
        let step = run.on_hooks(None);
        assert_eq!(step.work, Work::BeginTurn);
        assert_eq!(statuses(&step.events), vec![format!("Benchmark: retry {attempt}/4")]);
        let told = last_text(&run);
        assert!(told.starts_with(&format!("[system] Verification FAILED (attempt {attempt}/4).\n\n")));
        assert!(told.contains(&"x".repeat(3_000)) && !told.contains(&"x".repeat(3_001)));
    }
    assert_eq!(run.on_hooks(None).work, Work::Finish);

    let mut run = started("fix it, then run pytest");
    run.settings.benchmark_mode = true;
    run.had_tool_use = true;
    run.turn = 1;
    run.tool_calls.push(test_call("pytest", "3 passed", false));
    assert_eq!(run.on_hooks(None).work, Work::Finish);
}

#[test]
fn early_ends_are_sent_on_once() {
    let mut run = started("go");
    run.had_tool_use = true;
    run.turn = 4;
    let step = run.on_hooks(None);
    assert_eq!(step.work, Work::BeginTurn);
    assert_eq!(step.events.len(), 1);
    assert_eq!(last_text(&run), runner::DEPTH_NUDGE);
    assert_eq!(run.on_hooks(None).work, Work::Finish);

    let mut run = started("go");
    run.had_tool_use = true;
    run.turn = 5;
    assert_eq!(run.on_hooks(None).work, Work::Finish);
}

#[test]
fn cut_responses_are_continued_three_times() {
    let mut run = started("go");
    run.last_stop_reason = StopReason::MaxTokens;
    for n in 1..=3 {
        assert_eq!(run.on_hooks(None).work, Work::Compact);
        assert_eq!(last_text(&run), "Continue from exactly where you stopped.");
        assert_eq!(run.messages.len(), 1 + n);
    }
    assert_eq!(run.on_hooks(None).work, Work::Finish);

    let mut run = started("go");
    run.last_stop_reason = StopReason::StopSequence;
    run.had_tool_use = true;
    run.turn = 1;
    assert_eq!(run.on_hooks(None).work, Work::Finish);
}

#[test]
fn repeated_failures_are_pointed_out_once() {
    let mut run = started("go");
    for _ in 0..5 {
        run.tool_calls.push(test_call("ls", "no", true));
    }
    // Five calls are too few to tell.
    assert!(statuses(&run.on_tools_done().events).is_empty());
    run.tool_calls.push(test_call("ls", "no", true));
    let step = run.on_tools_done();
    assert_eq!(step.work, Work::Compact);
    assert_eq!(statuses(&step.events), vec!["Doom loop detected — forcing new approach"]);
    assert_eq!(last_text(&run), runner::DOOM_LOOP_NUDGE);
    assert!(statuses(&run.on_tools_done().events).is_empty());
    assert!(last_text(&run).is_empty());

    let mut run = started("go");
    for n in 0..6 {
        let mut call = test_call("ls", "fine", false);
        call.name = if n % 2 == 0 { "A".to_string() } else { "B".to_string() };
        run.tool_calls.push(call);
    }
    assert_eq!(statuses(&run.on_tools_done().events).len(), 1);
}

#[test]
fn failures_of_a_tool_are_counted() {
    let mut run = started("go");
    let look = use_of("Look", "{}");
    let broken = ToolResult { content: "broken".to_string(), is_error: true };
    for (count, left) in [(1, 2), (2, 1), (3, 0), (4, 0)] {
        let settled = run.settle(&look, broken.clone(), false);
        assert!(settled.is_error);
        assert_eq!(
            settled.content,
            format!(
                "broken\n\n[Tool 'Look' failed {count} time(s). {left} attempts remaining. \
                 Analyze the error and try a different approach.]"
            )
        );
    }
    assert_eq!(run.settle(&look, fine(), false), fine());
    assert!(run.settle(&look, broken, false).content.contains("failed 1 time(s)"));
}

#[test]
fn results_answer_their_calls_in_order() {
    let mut run = started("go");
    let long = "line\n".repeat(300);
    let good = ToolResult { content: long.clone(), is_error: false };
    let bad = ToolResult { content: long.clone(), is_error: true };
    let event = run.record(use_of("A", "{}"), good, &long, 7);
    assert!(event.to_observers());
    assert_eq!(
        event,
        AgentEvent::ToolEnd {
            name: "A".to_string(),
            id: "u".to_string(),
            result: long.clone(),
            is_error: false,
            duration_nanos: 7,
        }
    );
    run.record(use_of("B", "{}"), bad, "unused", 8);
    assert_eq!(run.on_tools_done().work, Work::Compact);
    let lengths: Vec<usize> = match &run.messages.last().unwrap().content {
        MessageContent::Blocks(blocks) => blocks
            .iter()
            .map(|b| match b {
                ContentBlock::ToolResult { content: ToolResultContent::Text(t), .. } => t.len(),
                other => panic!("unexpected block: {other:?}"),
            })
            .collect(),
        other => panic!("unexpected content: {other:?}"),
    };
    // A success is capped, a failure is not.
    assert_eq!(lengths.len(), 2);
    assert!(lengths[0] < long.len());
    assert_eq!(lengths[1], long.len());
    assert_eq!(run.tool_calls[1].result, long);
}

#[test]
fn requests_hold_what_was_configured() {
    let mut s = settings(9);
    s.system_prompt = Some("be kind".to_string());
    s.thinking_disabled = true;
    let (mut run, _) = AgentRun::start(s, "explore this", vec![], Usage::default());
    let ask = |run: &mut AgentRun, open: usize| match run.on_turn(false, open, vec![]).work {
        Work::Complete(request) => request,
        other => panic!("unexpected work: {other:?}"),
    };
    let first = ask(&mut run, 2);
    assert_eq!(first.model, "standard");
    assert_eq!(first.max_tokens, 16384);
    assert_eq!(first.system.as_deref(), Some("be kind"));
    assert!(first.options.is_set("thinking_disabled"));
    assert_eq!(
        first.messages[0].get_all_text(),
        format!("explore this{}", runner::ANALYSIS_HINT)
    );
    ask(&mut run, 2);
    run.settings.thinking_budget = Some(64);
    run.settings.model = Some("other".to_string());
    let third = ask(&mut run, 1);
    assert_eq!(third.model, "other");
    assert_eq!(third.options.get_u32("thinking_budget"), Some(64));
    assert!(!third.options.is_set("thinking_disabled"));
    assert!(third.system.unwrap().starts_with("be kind\n\n[system reminder: You have 1 incomplete task in"));
    assert!(ask(&mut run, 2).system.unwrap().contains("You have 2 incomplete tasks in"));
    assert_eq!(ask(&mut run, 0).system.as_deref(), Some("be kind"));
}

#[test]
fn hooks_may_block_a_turn() {
    let mut run = started("go");
    assert_eq!(
        run.on_hooks(Some("no".to_string())).work,
        Work::Fail(CerseiError::Provider("Blocked by hook: no".to_string()))
    );
    run.settings.turns_elapsed_cadence = 2;
    run.turn = 4;
    assert_eq!(run.on_hooks(None).work, Work::TurnsElapsed);
    assert_eq!(run.on_elapsed().work, Work::Finish);
    run.turn = 5;
    assert_eq!(run.on_hooks(None).work, Work::Finish);
}

#[test]
fn conversations_are_compacted() {
    let mut run = started("one");
    run.messages.push(Message::assistant("two"));
    run.messages.push(Message::user("three"));
    assert_eq!(run.on_compaction(false, Some("s".to_string()), 1).work, Work::BeginTurn);
    assert_eq!(run.messages.len(), 3);
    assert_eq!(run.on_compaction(true, Some(String::new()), 1).work, Work::Snip);
    assert_eq!(run.on_compaction(true, None, 1).work, Work::Snip);
    assert_eq!(run.on_compaction(true, Some("so far".to_string()), 2).work, Work::BeginTurn);
    let texts: Vec<String> = run.messages.iter().map(|m| m.get_all_text()).collect();
    assert_eq!(texts, vec!["so far", "two", "three"]);
    assert_eq!(run.on_snipped(vec![Message::assistant("end")]).work, Work::BeginTurn);
    assert_eq!(run.into_output().text(), "end");
}

#[test]
fn sessions_are_saved_at_the_end() {
    let mut run = started("go");
    run.settings.session_id = Some("s1".to_string());
    assert_eq!(run.on_hooks(None).work, Work::Finish);
    run.settings.has_memory = true;
    assert_eq!(run.on_hooks(None).work, Work::SaveSession { session_id: "s1".to_string() });
    let step = run.on_saved(Ok(()));
    assert_eq!(step.work, Work::Finish);
    assert_eq!(step.events, vec![AgentEvent::SessionSaved { session_id: "s1".to_string() }]);
    let lost = CerseiError::Memory("full".to_string());
    assert_eq!(run.on_saved(Err(lost.clone())).work, Work::Fail(lost));
    assert_eq!(run.into_output().text(), "");
}
