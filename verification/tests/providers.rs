use cersei::anthropic::{
    self, Anthropic, AnthropicBuilder, Auth, OAuthToken, SseReader, ANTHROPIC_BETA_HEADER,
};
use cersei::anthropic_vertex::{self, AnthropicVertex, ProbeReply, VertexAuthSpec, VertexProbe};
use cersei::framing::FrameBuffer;
use cersei::json::{self, Json};
use cersei::openai::{self, ChatReader, OpenAi};
use cersei::stream::StreamAccumulator;
use cersei::types::{
    CerseiError, CompletionRequest, ContentBlock, MediaSource, Message, MessageContent,
    ProviderOptions, Role, StopReason, StreamErrorKind, StreamEvent, ToolDefinition,
    ToolResultContent, Usage,
};

fn request(text: &str) -> CompletionRequest {
    CompletionRequest {
        model: String::new(),
        messages: vec![Message::user(text)],
        system: None,
        tools: vec![],
        max_tokens: 100,
        temperature: None,
        stop_sequences: vec![],
        options: ProviderOptions::new(),
    }
}

fn tool(name: &str) -> ToolDefinition {
    ToolDefinition {
        name: name.to_string(),
        description: "d".to_string(),
        input_schema: json::parse("{\"type\":\"object\"}").unwrap(),
    }
}

fn at<'a>(v: &'a Json, path: &str) -> Option<&'a Json> {
    let mut v = v;
    for p in path.split('.') {
        v = match p.parse::<usize>() {
            Ok(i) => v.item(i)?,
            Err(_) => v.get(p)?,
        };
    }
    Some(v)
}

fn text_at<'a>(v: &'a Json, path: &str) -> Option<&'a str> {
    at(v, path)?.as_str()
}

fn media(media_type: &str, data: Option<&str>, url: Option<&str>) -> MediaSource {
    MediaSource {
        source_type: if url.is_some() { "url".to_string() } else { "base64".to_string() },
        media_type: if media_type.is_empty() { None } else { Some(media_type.to_string()) },
        data: data.map(|d| d.to_string()),
        url: url.map(|u| u.to_string()),
    }
}

// ─── Anthropic ───────────────────────────────────────────────────────────────

#[test]
fn beta_header_omits_stale_interleaved_thinking_identifier() {
    assert!(!ANTHROPIC_BETA_HEADER.contains("interleaved-thinking-2025-04-14"));
    assert_eq!(ANTHROPIC_BETA_HEADER, "token-efficient-tools-2025-02-19");
}

#[test]
fn signature_delta_is_parsed_instead_of_dropped() {
    let raw = "event: content_block_delta\ndata: {\"type\":\"content_block_delta\",\"index\":0,\"delta\":{\"type\":\"signature_delta\",\"signature\":\"sig-xyz\"}}";
    let event =
        anthropic::parse_sse_event(raw).expect("signature_delta should produce a StreamEvent");
    match event {
        StreamEvent::SignatureDelta { index, signature } => {
            assert_eq!(index, 0);
            assert_eq!(signature, "sig-xyz");
        }
        other => panic!("expected SignatureDelta, got {other:?}"),
    }
}

#[test]
fn redacted_thinking_block_start_is_parsed_instead_of_dropped() {
    let raw = "event: content_block_start\ndata: {\"type\":\"content_block_start\",\"index\":2,\"content_block\":{\"type\":\"redacted_thinking\",\"data\":\"opaque-blob\"}}";
    let event = anthropic::parse_sse_event(raw)
        .expect("redacted_thinking start should produce a StreamEvent");
    match event {
        StreamEvent::RedactedThinking { index, data } => {
            assert_eq!(index, 2);
            assert_eq!(data, "opaque-blob");
        }
        other => panic!("expected RedactedThinking, got {other:?}"),
    }
}

#[test]
fn events_are_read_by_their_type() {
    let read = |kind: &str, data: &str| {
        anthropic::parse_sse_event(&format!("event: {kind}\ndata: {data}"))
    };
    assert_eq!(
        read("message_start", "{\"message\":{\"id\":\"m1\",\"model\":\"x\"}}"),
        Some(StreamEvent::MessageStart { id: "m1".to_string(), model: "x".to_string() })
    );
    assert_eq!(
        read("content_block_delta", "{\"index\":3,\"delta\":{\"type\":\"text_delta\",\"text\":\"hi\"}}"),
        Some(StreamEvent::TextDelta { index: 3, text: "hi".to_string() })
    );
    assert_eq!(
        read("content_block_stop", "{\"index\":3}"),
        Some(StreamEvent::ContentBlockStop { index: 3 })
    );
    assert_eq!(read("message_stop", "{}"), Some(StreamEvent::MessageStop));
    assert_eq!(read("ping", "{}"), Some(StreamEvent::Ping));
    assert_eq!(read("surprise", "{}"), None);
    assert_eq!(anthropic::parse_sse_event("event: ping"), None);
    assert_eq!(read("ping", "not json"), None);
}

#[test]
fn events_do_not_depend_on_the_chunks() {
    let stream = "event: ping\ndata: {}\n\nevent: content_block_stop\ndata: {\"index\":1}\n\nevent: message_stop\ndata: {}\n\n";
    let mut whole = SseReader::new();
    let all = whole.feed(stream.as_bytes());
    assert_eq!(
        all,
        vec![
            StreamEvent::Ping,
            StreamEvent::ContentBlockStop { index: 1 },
            StreamEvent::MessageStop
        ]
    );
    for i in 0..stream.len() {
        let mut r = SseReader::new();
        let mut events = r.feed_text(&stream[..i]);
        events.extend(r.feed_text(&stream[i..]));
        assert_eq!(events, all);
    }
}

#[test]
fn frames_wait_for_their_end() {
    let mut b = FrameBuffer::new();
    assert_eq!(b.push("a", "\n\n"), Vec::<String>::new());
    assert_eq!(b.push("b\n", "\n\n"), Vec::<String>::new());
    assert_eq!(b.push("\nc\n\nd", "\n\n"), vec!["ab".to_string(), "c".to_string()]);
    assert_eq!(b.pending, "d");
}

#[test]
fn failures_become_events() {
    assert_eq!(
        anthropic::http_error(529, "overloaded"),
        StreamEvent::Error {
            message: "HTTP 529: overloaded".to_string(),
            kind: StreamErrorKind::Http { status: 529 },
        }
    );
    assert_eq!(
        anthropic::transport_error("reset".to_string()),
        StreamEvent::Error { message: "reset".to_string(), kind: StreamErrorKind::Transport }
    );
    assert!(StreamErrorKind::Http { status: 529 }.into_error("x".to_string()).is_retryable());
    assert!(StreamErrorKind::Http { status: 429 }.into_error("x".to_string()).is_retryable());
    assert!(!StreamErrorKind::Http { status: 400 }.into_error("x".to_string()).is_retryable());
    assert!(StreamErrorKind::Transport.into_error("x".to_string()).is_retryable());
    assert!(!StreamErrorKind::Provider.into_error("x".to_string()).is_retryable());
}

#[test]
fn anthropic_bodies_mark_what_is_cached() {
    let mut r = request("hello");
    r.system = Some("be brief".to_string());
    r.tools = vec![tool("a"), tool("b")];
    r.stop_sequences = vec!["END".to_string()];
    let body = anthropic::build_anthropic_body(Some("m"), &r, None, None);
    assert_eq!(text_at(&body, "model"), Some("m"));
    assert_eq!(at(&body, "max_tokens").unwrap().as_u64(), Some(100));
    assert_eq!(at(&body, "stream").unwrap().as_bool(), Some(true));
    assert_eq!(text_at(&body, "messages.0.role"), Some("user"));
    assert_eq!(text_at(&body, "messages.0.content"), Some("hello"));
    assert_eq!(text_at(&body, "system.0.text"), Some("be brief"));
    assert_eq!(text_at(&body, "system.0.cache_control.type"), Some("ephemeral"));
    assert!(at(&body, "tools.0.cache_control").is_none());
    assert_eq!(text_at(&body, "tools.1.cache_control.type"), Some("ephemeral"));
    assert_eq!(text_at(&body, "stop_sequences.0"), Some("END"));
    assert!(at(&body, "thinking").is_none());
    assert!(at(&body, "anthropic_version").is_none());
}

#[test]
fn a_thinking_budget_stands_before_an_off() {
    let mut r = request("x");
    r.options.set("thinking_disabled", Json::Bool(true));
    let body = anthropic::build_anthropic_body(None, &r, None, Some("v"));
    assert_eq!(text_at(&body, "thinking.type"), Some("disabled"));
    assert_eq!(text_at(&body, "anthropic_version"), Some("v"));
    assert!(at(&body, "model").is_none());
    let body = anthropic::build_anthropic_body(None, &r, Some(9), None);
    assert_eq!(text_at(&body, "thinking.type"), Some("enabled"));
    assert_eq!(at(&body, "thinking.budget_tokens").unwrap().as_u64(), Some(9));
}

#[test]
fn system_messages_are_left_out_of_the_conversation() {
    let mut r = request("x");
    let mut system = Message::user("s");
    system.role = Role::System;
    r.messages.insert(0, system);
    let body = anthropic::build_anthropic_body(None, &r, None, None);
    assert_eq!(at(&body, "messages").unwrap().as_array().unwrap().len(), 1);
}

#[test]
fn blocks_are_written_by_their_type() {
    let mut r = request("x");
    r.messages = vec![Message::user_blocks(vec![
        ContentBlock::Thinking { thinking: "t".to_string(), signature: "s".to_string() },
        ContentBlock::RedactedThinking { data: "d".to_string() },
        ContentBlock::ToolUse {
            id: "i".to_string(),
            name: "n".to_string(),
            input: json::parse("{\"a\":[1,-2]}").unwrap(),
        },
        ContentBlock::ToolResult {
            tool_use_id: "i".to_string(),
            content: ToolResultContent::Text("r".to_string()),
            is_error: Some(true),
        },
    ])];
    let body = anthropic::build_anthropic_body(None, &r, None, None);
    assert_eq!(text_at(&body, "messages.0.content.0.type"), Some("thinking"));
    assert_eq!(text_at(&body, "messages.0.content.0.signature"), Some("s"));
    assert_eq!(text_at(&body, "messages.0.content.1.data"), Some("d"));
    assert_eq!(at(&body, "messages.0.content.2.input.a.1").unwrap().as_i64(), Some(-2));
    assert_eq!(text_at(&body, "messages.0.content.3.content"), Some("r"));
    assert_eq!(at(&body, "messages.0.content.3.is_error").unwrap().as_bool(), Some(true));
}

#[test]
fn anthropic_requests_are_authorised() {
    let p = Anthropic::new(Auth::ApiKey("key".to_string()), None, "standard");
    assert_eq!(p.auth_headers(), Some(("x-api-key".to_string(), "key".to_string())));
    let credentials = p.auth_headers().unwrap();
    let http = p.plan(&request("hi"), credentials);
    assert_eq!(http.url, "https://api.anthropic.com/v1/messages");
    assert!(http.headers.contains(&("anthropic-version".to_string(), "2023-06-01".to_string())));
    assert!(http.headers.contains(&("x-api-key".to_string(), "key".to_string())));
    assert_eq!(text_at(&http.body, "model"), Some("standard"));
    assert_eq!(Anthropic::new(Auth::Custom, None, "standard").auth_headers(), None);
    assert_eq!(
        Anthropic::new(Auth::Bearer("t".to_string()), None, "standard").auth_headers(),
        Some(("authorization".to_string(), "Bearer t".to_string()))
    );
    assert_eq!(
        Anthropic::from_env(None, None, "standard"),
        Err(CerseiError::Auth("ANTHROPIC_API_KEY not set".to_string()))
    );
    assert_eq!(
        Anthropic::from_env(Some("k".to_string()), Some("http://b".to_string()), "standard")
            .unwrap()
            .base_url,
        "http://b"
    );
}

#[test]
fn anthropic_builders_need_credentials() {
    assert!(matches!(Anthropic::builder().build("standard"), Err(CerseiError::Auth(_))));
    let p = AnthropicBuilder::default()
        .api_key("k".to_string())
        .base_url("http://b".to_string())
        .model("m".to_string())
        .thinking(7)
        .max_retries(2)
        .build("standard")
        .unwrap();
    assert_eq!(p.auth, Auth::ApiKey("k".to_string()));
    assert_eq!(p.base_url, "http://b");
    assert_eq!(p.default_model, "m");
    assert_eq!(p.thinking_budget, Some(7));
    assert_eq!(p.max_retries, 2);
    let token = OAuthToken { access_token: "at".to_string(), refresh_token: None };
    let p = Anthropic::builder().oauth(token).build("standard").unwrap();
    assert_eq!(p.auth_headers(), Some(("authorization".to_string(), "Bearer at".to_string())));
    assert_eq!(p.max_retries, 5);
    assert_eq!(p.default_model, "standard");
}

#[test]
fn vertex_asks_for_credentials_in_turn() {
    assert_eq!(anthropic_vertex::probe_after(0), Some(VertexProbe::AccessToken));
    let mut n = 0;
    while anthropic_vertex::probe_after(n).is_some() {
        n += 1;
    }
    assert!(n >= 3);
    assert_eq!(
        anthropic_vertex::resolve_auth_spec(
            VertexProbe::AccessToken,
            ProbeReply::Value("tok".to_string())
        ),
        Some(VertexAuthSpec::Static("tok".to_string()))
    );
    assert_eq!(
        anthropic_vertex::resolve_auth_spec(VertexProbe::AccessToken, ProbeReply::Missing),
        None
    );
    assert!(matches!(anthropic_vertex::no_credentials(), CerseiError::Auth(_)));
}

#[test]
fn vertex_names_the_model_in_the_address() {
    let p = AnthropicVertex::new(
        VertexAuthSpec::Static("tok".to_string()),
        "proj".to_string(),
        "us-east5".to_string(),
        "standard",
    )
    .unwrap()
    .with_model("model-x".to_string());
    assert_eq!(p.static_token(), Some("tok".to_string()));
    let http = p.plan(&request("hi"), "tok");
    assert!(http.url.contains("proj"));
    assert!(http.url.contains("us-east5"));
    assert!(http.url.contains("model-x"));
    assert_eq!(http.url, p.model_url("model-x"));
    assert_eq!(text_at(&http.body, "anthropic_version"), Some("vertex-2023-10-16"));
    assert!(at(&http.body, "model").is_none());
    assert_eq!(
        AnthropicVertex::from_env(None, None, Ok(VertexAuthSpec::Adc), "standard"),
        Err(CerseiError::Config("VERTEX_PROJECT_ID not set".to_string()))
    );
}

// ─── Accumulation ────────────────────────────────────────────────────────────

#[test]
fn thinking_block_carries_signature_from_signature_delta() {
    let mut acc = StreamAccumulator::new();
    acc.process_event(StreamEvent::ContentBlockStart {
        index: 0,
        block_type: "thinking".to_string(),
        id: None,
        name: None,
    });
    acc.process_event(StreamEvent::ThinkingDelta {
        index: 0,
        thinking: "let me think...".to_string(),
    });
    acc.process_event(StreamEvent::SignatureDelta { index: 0, signature: "sig-abc".to_string() });
    acc.process_event(StreamEvent::ContentBlockStop { index: 0 });

    let response = acc.into_response().unwrap();
    let blocks = match response.message.content {
        MessageContent::Blocks(blocks) => blocks,
        _ => panic!("expected block content"),
    };
    match &blocks[0] {
        ContentBlock::Thinking { thinking, signature } => {
            assert_eq!(thinking, "let me think...");
            assert_eq!(signature, "sig-abc");
        }
        other => panic!("expected Thinking block, got {other:?}"),
    }
}

#[test]
fn redacted_thinking_block_preserves_opaque_data() {
    let mut acc = StreamAccumulator::new();
    acc.process_event(StreamEvent::RedactedThinking { index: 0, data: "opaque-blob".to_string() });
    acc.process_event(StreamEvent::ContentBlockStop { index: 0 });

    let response = acc.into_response().unwrap();
    let blocks = match response.message.content {
        MessageContent::Blocks(blocks) => blocks,
        _ => panic!("expected block content"),
    };
    match &blocks[0] {
        ContentBlock::RedactedThinking { data } => {
            assert_eq!(data, "opaque-blob");
        }
        other => panic!("expected RedactedThinking block, got {other:?}"),
    }
}

#[test]
fn tool_calls_read_their_arguments() {
    let mut acc = StreamAccumulator::default();
    assert!(!acc.has_started());
    acc.process_event(StreamEvent::MessageStart { id: "m".to_string(), model: "x".to_string() });
    assert!(acc.has_started());
    acc.process_event(StreamEvent::ContentBlockStart {
        index: 0,
        block_type: "tool_use".to_string(),
        id: Some("t1".to_string()),
        name: Some("Read".to_string()),
    });
    acc.process_event(StreamEvent::InputJsonDelta {
        index: 0,
        partial_json: "{\"path\":".to_string(),
    });
    acc.process_event(StreamEvent::InputJsonDelta { index: 0, partial_json: "\"a\"}".to_string() });
    acc.process_event(StreamEvent::ContentBlockStop { index: 0 });
    acc.process_event(StreamEvent::MessageDelta {
        stop_reason: Some(StopReason::ToolUse),
        usage: Some(Usage { input_tokens: 3, output_tokens: 4, total_tokens: 7 }),
    });
    let r = acc.into_response().unwrap();
    assert_eq!(r.stop_reason, StopReason::ToolUse);
    assert_eq!(r.usage.output_tokens, 4);
    match r.message.content {
        MessageContent::Blocks(blocks) => match &blocks[0] {
            ContentBlock::ToolUse { id, name, input } => {
                assert_eq!(id, "t1");
                assert_eq!(name, "Read");
                assert_eq!(text_at(input, "path"), Some("a"));
            }
            other => panic!("expected ToolUse block, got {other:?}"),
        },
        other => panic!("expected block content, got {other:?}"),
    }
}

#[test]
fn text_gathers_in_its_block() {
    let mut acc = StreamAccumulator::new();
    for t in ["a", "b", "c"] {
        acc.process_event(StreamEvent::TextDelta { index: 0, text: t.to_string() });
    }
    assert_eq!(acc.current_text(), "abc");
}

#[test]
fn the_text_of_a_stopped_block_stays() {
    let mut acc = StreamAccumulator::new();
    assert_eq!(acc.current_text(), "");
    acc.process_event(StreamEvent::TextDelta { index: 0, text: "Hel".to_string() });
    acc.process_event(StreamEvent::TextDelta { index: 0, text: "lo".to_string() });
    acc.process_event(StreamEvent::ContentBlockStop { index: 0 });
    assert_eq!(acc.current_text(), "Hello");
    acc.process_event(StreamEvent::TextDelta { index: 1, text: ", world".to_string() });
    assert_eq!(acc.current_text(), "Hello, world");
}

#[test]
fn the_texts_of_open_blocks_stand_in_their_order() {
    let mut acc = StreamAccumulator::new();
    for (index, t) in [(7, "c"), (2, "b"), (0, "a"), (7, "d")] {
        acc.process_event(StreamEvent::TextDelta { index, text: t.to_string() });
    }
    assert_eq!(acc.current_text(), "abcd");
}

// ─── OpenAI ──────────────────────────────────────────────────────────────────

#[test]
fn base64_image_becomes_data_url() {
    let source = media("image/png", Some("QUJD"), None);
    assert_eq!(
        openai::openai_image_url(&source).as_deref(),
        Some("data:image/png;base64,QUJD")
    );
}

#[test]
fn remote_image_url_passes_through() {
    let source = media("", None, Some("https://x/y.jpg"));
    assert_eq!(openai::openai_image_url(&source).as_deref(), Some("https://x/y.jpg"));
}

#[test]
fn video_is_dropped_for_openai() {
    let source = media("video/mp4", Some("ZGF0YQ=="), None);
    assert_eq!(openai::openai_image_url(&source), None);
}

#[test]
fn pdf_becomes_file_part() {
    let source = media("application/pdf", Some("UERG"), None);
    let part = openai::openai_file_part(&source).unwrap();
    assert_eq!(text_at(&part, "type"), Some("file"));
    assert_eq!(text_at(&part, "file.file_data"), Some("data:application/pdf;base64,UERG"));
}

#[test]
fn reasoning_effort_only_on_reasoning_models_when_set() {
    let mut opts = ProviderOptions::new();
    opts.set("reasoning_effort", Json::str("high"));

    // Reasoning models map the option through...
    assert_eq!(openai::reasoning_effort_for("gpt-5.3", &opts).as_deref(), Some("high"));
    assert_eq!(openai::reasoning_effort_for("o3-mini", &opts).as_deref(), Some("high"));
    // ...non-reasoning models omit it...
    assert_eq!(openai::reasoning_effort_for("gpt-4o", &opts), None);
    // ...and an unset option omits it even on reasoning models.
    assert_eq!(openai::reasoning_effort_for("gpt-5.3", &ProviderOptions::new()), None);
}

fn chat(lines: &[&str]) -> Vec<StreamEvent> {
    let mut reader = ChatReader::new();
    let mut out = vec![];
    for l in lines {
        out.extend(reader.feed_text(&format!("{l}\n")));
    }
    out
}

#[test]
fn chat_chunks_become_events() {
    let events = chat(&[
        "data: {\"choices\":[{\"delta\":{\"content\":\"Hel\"}}]}",
        "",
        "data: {\"choices\":[{\"delta\":{\"content\":\"lo\"}}]}",
        "data: {\"choices\":[{\"delta\":{},\"finish_reason\":\"stop\"}]}",
        "data: [DONE]",
    ]);
    let mut acc = StreamAccumulator::new();
    acc.process_event(ChatReader::start_event());
    for e in events {
        acc.process_event(e);
    }
    let r = acc.into_response().unwrap();
    assert_eq!(r.message.get_all_text(), "Hello");
    assert_eq!(r.stop_reason, StopReason::EndTurn);
}

#[test]
fn chat_tool_calls_are_put_together() {
    let events = chat(&[
        "data: {\"choices\":[{\"delta\":{\"tool_calls\":[{\"index\":0,\"id\":\"c1\",\"function\":{\"name\":\"Read\",\"arguments\":\"{\\\"a\\\"\"}}]}}]}",
        "data: {\"choices\":[{\"delta\":{\"tool_calls\":[{\"index\":0,\"function\":{\"arguments\":\":1}\"}}]}}]}",
        "data: {\"choices\":[{\"delta\":{},\"finish_reason\":\"tool_calls\"}]}",
        "data: [DONE]",
    ]);
    let mut acc = StreamAccumulator::new();
    for e in events {
        acc.process_event(e);
    }
    let r = acc.into_response().unwrap();
    let blocks = match r.message.content {
        MessageContent::Blocks(b) => b,
        other => panic!("expected block content, got {other:?}"),
    };
    let found = blocks.iter().any(|b| match b {
        ContentBlock::ToolUse { id, name, input } => {
            id == "c1" && name == "Read" && at(input, "a").unwrap().as_u64() == Some(1)
        }
        _ => false,
    });
    assert!(found);
    assert_eq!(r.stop_reason, StopReason::ToolUse);
}

#[test]
fn chat_events_do_not_depend_on_the_chunks() {
    let stream = "data: {\"choices\":[{\"delta\":{\"content\":\"x\"}}]}\n\ndata: {\"choices\":[{\"delta\":{},\"finish_reason\":\"length\"}]}\ndata: [DONE]\n";
    let whole = ChatReader::new().feed(stream.as_bytes());
    assert!(!whole.is_empty());
    for i in 0..stream.len() {
        let mut r = ChatReader::new();
        let mut events = r.feed_text(&stream[..i]);
        events.extend(r.feed_text(&stream[i..]));
        assert_eq!(events, whole);
    }
}

#[test]
fn chat_bodies_hold_the_conversation() {
    let mut r = request("hello");
    r.system = Some("be brief".to_string());
    r.tools = vec![tool("a")];
    let body = openai::build_chat_body("gpt-4o", &r);
    assert_eq!(text_at(&body, "model"), Some("gpt-4o"));
    assert_eq!(text_at(&body, "messages.0.role"), Some("system"));
    assert_eq!(text_at(&body, "messages.0.content"), Some("be brief"));
    assert_eq!(text_at(&body, "messages.1.role"), Some("user"));
    assert_eq!(text_at(&body, "tools.0.function.name"), Some("a"));
    assert_eq!(at(&body, "stream").unwrap().as_bool(), Some(true));
}

#[test]
fn openai_builders_need_a_key() {
    assert!(matches!(OpenAi::builder().build(), Err(CerseiError::Auth(_))));
    let p = OpenAi::builder().api_key("k".to_string()).build().unwrap();
    assert_eq!(p.default_model, "gpt-4o");
    assert_eq!(p.base_url, "https://api.openai.com/v1");
    let http = p.plan(&request("x"));
    assert_eq!(http.url, "https://api.openai.com/v1/chat/completions");
    assert!(http.headers.contains(&("authorization".to_string(), "Bearer k".to_string())));
    assert_eq!(
        OpenAi::from_env(None, None),
        Err(CerseiError::Auth("OPENAI_API_KEY not set".to_string()))
    );
}

#[test]
fn default_credentials_are_looked_for_in_two_places() {
    let some = |s: &str| Some(s.to_string());
    let user = "application_default_credentials.json";
    let files = anthropic_vertex::adc_candidates(some("/k.json"), some("/c"), some("/h"));
    assert_eq!(files, vec!["/k.json".to_string(), format!("/c/{user}")]);
    let files = anthropic_vertex::adc_candidates(some(""), None, some("/h"));
    assert_eq!(files, vec![format!("/h/.config/gcloud/{user}")]);
    assert_eq!(anthropic_vertex::adc_candidates(None, some("/c/"), None), vec![format!("/c/{user}")]);
    assert!(anthropic_vertex::adc_candidates(None, None, None).is_empty());
}

// ─── JSON ────────────────────────────────────────────────────────────────────

#[test]
fn pointers_go_down_part_by_part() {
    let v = json::parse("{\"a/b\":{\"m~n\":[10,20]},\"\":1,\"~1\":2,\"s\":\"x\"}").unwrap();
    assert_eq!(json::pointer(&v, ""), Some(v.copy()));
    assert_eq!(json::pointer(&v, "a"), None);
    assert_eq!(json::pointer(&v, "/a~1b/m~0n/1"), Some(Json::UInt(20)));
    assert_eq!(json::pointer(&v, "/a~1b/m~0n/2"), None);
    assert_eq!(json::pointer(&v, "/a~1b/m~0n/01"), None);
    assert_eq!(json::pointer(&v, "/a~1b/m~0n/+1"), None);
    assert_eq!(json::pointer(&v, "/a~1b/m~0n/-"), None);
    assert_eq!(json::pointer(&v, "/a~1b/m~0n/"), None);
    assert_eq!(json::pointer(&v, "/"), Some(Json::UInt(1)));
    assert_eq!(json::pointer(&v, "/~01"), Some(Json::UInt(2)));
    assert_eq!(json::pointer(&v, "/s/0"), None);
    assert_eq!(json::pointer(&v, "/a/b"), None);
}

#[test]
fn json_is_read_printed_and_pointed_into() {
    let v = json::parse("{\"b\":[1,-2,3.5,\"x\",null,true],\"a\":{}}").unwrap();
    assert_eq!(at(&v, "b.0").unwrap().as_u64(), Some(1));
    assert_eq!(at(&v, "b.1").unwrap().as_i64(), Some(-2));
    assert_eq!(at(&v, "b.2").unwrap().as_u64(), None);
    assert_eq!(text_at(&v, "b.3"), Some("x"));
    assert!(at(&v, "b.4").unwrap().is_null());
    assert_eq!(at(&v, "b.5").unwrap().as_bool(), Some(true));
    assert_eq!(json::print(&v), "{\"a\":{},\"b\":[1,-2,3.5,\"x\",null,true]}");
    assert_eq!(json::parse(&json::print(&v)), json::parse(&json::print(&v.copy())));
    assert_eq!(json::pointer(&v, "/b/3"), Some(Json::str("x")));
    assert_eq!(json::pointer(&v, "/c"), None);
    assert_eq!(json::parse("{"), None);
    let twice = json::parse("{\"a\":1,\"a\":2}").unwrap();
    assert_eq!(at(&twice, "a").unwrap().as_u64(), Some(2));
}
