//! The Anthropic provider: request bodies, credentials and the events of its
//! response stream.

use crate::framing;
use crate::framing::FrameBuffer;
use crate::json;
use crate::json::{Json, JsonObject};
use crate::text;
use crate::types;
use crate::types::{
    CerseiError, CompletionRequest, Message, ProviderCapabilities, Role, StopReason,
    StreamErrorKind, StreamEvent, ToolDefinition, Usage,
};
use crate::wire;
use vstd::prelude::*;
use vstd::string::*;

verus! {

pub const ANTHROPIC_API_BASE: &'static str = "https://api.anthropic.com";

pub const ANTHROPIC_API_VERSION: &'static str = "2023-06-01";

/// The one beta feature that is asked for. Extended thinking is asked for in the
/// body and needs no beta header.
pub const ANTHROPIC_BETA_HEADER: &'static str = "token-efficient-tools-2025-02-19";

/// The text of the last line that begins with `prefix`, trimmed, without the
/// prefix; empty where no line does.
pub open spec fn last_field(lines: Seq<Seq<char>>, prefix: Seq<char>) -> Seq<char>
    decreases lines.len(),
{
    if lines.len() == 0 {
        Seq::empty()
    } else {
        match text::after_prefix(lines.last(), prefix) {
            Some(rest) => text::trimmed(rest),
            None => last_field(lines.drop_last(), prefix),
        }
    }
}

/// The event that a frame of the stream stands for.
pub open spec fn sse_event(raw: Seq<char>) -> Option<types::EventView> {
    let lines = text::lines_of(raw);
    match json::json_read(last_field(lines, "data: "@)) {
        Some(data) => event_of(last_field(lines, "event: "@), data),
        None => None,
    }
}

/// The stop reason of a name.
pub open spec fn stop_reason_of(name: Option<Seq<char>>) -> Option<StopReason> {
    match name {
        Some(s) => if s == "end_turn"@ {
            Some(StopReason::EndTurn)
        } else if s == "max_tokens"@ {
            Some(StopReason::MaxTokens)
        } else if s == "tool_use"@ {
            Some(StopReason::ToolUse)
        } else if s == "stop_sequence"@ {
            Some(StopReason::StopSequence)
        } else {
            None
        },
        None => None,
    }
}

/// The usage that a message delta reports.
pub open spec fn usage_of(usage: json::JsonView) -> Option<Usage> {
    if usage is Object {
        Some(
            Usage {
                input_tokens: usage.at("input_tokens"@).u64_or_zero(),
                output_tokens: usage.at("output_tokens"@).u64_or_zero(),
                total_tokens: 0,
            },
        )
    } else {
        None
    }
}

/// The index of the block that an event speaks of.
pub open spec fn index_of(data: json::JsonView) -> usize {
    data.at("index"@).u64_or_zero() as usize
}

/// The event of a type, with its data.
pub open spec fn event_of(event_type: Seq<char>, data: json::JsonView) -> Option<types::EventView> {
    if event_type == "message_start"@ {
        Some(
            types::EventView::MessageStart {
                id: data.at("message"@).at("id"@).str_or(Seq::empty()),
                model: data.at("message"@).at("model"@).str_or(Seq::empty()),
            },
        )
    } else if event_type == "content_block_start"@ {
        let block = data.at("content_block"@);
        if block.at("type"@).str_or("text"@) == "redacted_thinking"@ {
            Some(
                types::EventView::RedactedThinking {
                    index: index_of(data),
                    data: block.at("data"@).str_or(Seq::empty()),
                },
            )
        } else {
            Some(
                types::EventView::ContentBlockStart {
                    index: index_of(data),
                    block_type: block.at("type"@).str_or("text"@),
                    id: block.at("id"@).as_str(),
                    name: block.at("name"@).as_str(),
                },
            )
        }
    } else if event_type == "content_block_delta"@ {
        delta_of(index_of(data), data.at("delta"@))
    } else if event_type == "content_block_stop"@ {
        Some(types::EventView::ContentBlockStop { index: index_of(data) })
    } else if event_type == "message_delta"@ {
        Some(
            types::EventView::MessageDelta {
                stop_reason: stop_reason_of(data.at("delta"@).at("stop_reason"@).as_str()),
                usage: usage_of(data.at("usage"@)),
            },
        )
    } else if event_type == "message_stop"@ {
        Some(types::EventView::MessageStop)
    } else if event_type == "ping"@ {
        Some(types::EventView::Ping)
    } else if event_type == "error"@ {
        Some(
            types::EventView::Error {
                message: data.at("error"@).at("message"@).str_or("Unknown error"@),
                kind: StreamErrorKind::Provider,
            },
        )
    } else {
        None
    }
}

/// The event of a content block delta.
pub open spec fn delta_of(index: usize, delta: json::JsonView) -> Option<types::EventView> {
    let kind = delta.at("type"@).str_or(Seq::empty());
    if kind == "text_delta"@ {
        Some(
            types::EventView::TextDelta { index, text: delta.at("text"@).str_or(Seq::empty()) },
        )
    } else if kind == "input_json_delta"@ {
        Some(
            types::EventView::InputJsonDelta {
                index,
                partial_json: delta.at("partial_json"@).str_or(Seq::empty()),
            },
        )
    } else if kind == "thinking_delta"@ {
        Some(
            types::EventView::ThinkingDelta {
                index,
                thinking: delta.at("thinking"@).str_or(Seq::empty()),
            },
        )
    } else if kind == "signature_delta"@ {
        Some(
            types::EventView::SignatureDelta {
                index,
                signature: delta.at("signature"@).str_or(Seq::empty()),
            },
        )
    } else {
        None
    }
}

/// An event, or none, by its view.
pub open spec fn event_view(e: Option<StreamEvent>) -> Option<types::EventView> {
    match e {
        Some(e) => Some(e@),
        None => None,
    }
}

/// The value that is there; null where there is none.
spec fn seen(v: Option<&Json>) -> json::JsonView {
    match v {
        Some(j) => j@,
        None => json::JsonView::Null,
    }
}

/// The text of the member `key`, or `default`.
fn member_text(v: Option<&Json>, key: &str, default: &str) -> (r: String)
    ensures
        r@ == seen(v).at(key@).str_or(default@),
{
    match v {
        Some(j) => match j.str_at(key) {
            Some(s) => s.to_string(),
            None => default.to_string(),
        },
        None => default.to_string(),
    }
}

/// The text of the member `key`, where it is one.
fn member_opt_text(v: Option<&Json>, key: &str) -> (r: Option<String>)
    ensures
        types::opt_view(r) == seen(v).at(key@).as_str(),
{
    match v {
        Some(j) => match j.str_at(key) {
            Some(s) => Some(s.to_string()),
            None => None,
        },
        None => None,
    }
}

fn block_index(data: &Json) -> (r: usize)
    ensures
        r == index_of(data@),
{
    match data.u64_at("index") {
        Some(n) => n as usize,
        None => 0,
    }
}

/// The event of a content block delta.
pub fn delta_event(index: usize, delta: Option<&Json>) -> (r: Option<StreamEvent>)
    ensures
        event_view(r) == delta_of(
            index,
            match delta {
                Some(j) => j@,
                None => json::JsonView::Null,
            },
        ),
{
    let kind = member_text(delta, "type", "");
    assert(""@ =~= Seq::<char>::empty()) by {
        reveal_strlit("");
    }
    if text::same(kind.as_str(), "text_delta") {
        Some(StreamEvent::TextDelta { index, text: member_text(delta, "text", "") })
    } else if text::same(kind.as_str(), "input_json_delta") {
        Some(
            StreamEvent::InputJsonDelta {
                index,
                partial_json: member_text(delta, "partial_json", ""),
            },
        )
    } else if text::same(kind.as_str(), "thinking_delta") {
        Some(StreamEvent::ThinkingDelta { index, thinking: member_text(delta, "thinking", "") })
    } else if text::same(kind.as_str(), "signature_delta") {
        Some(StreamEvent::SignatureDelta { index, signature: member_text(delta, "signature", "") })
    } else {
        None
    }
}

/// The stop reason of a name.
pub fn stop_reason_named(name: &str) -> (r: Option<StopReason>)
    ensures
        r == stop_reason_of(Some(name@)),
{
    if text::same(name, "end_turn") {
        Some(StopReason::EndTurn)
    } else if text::same(name, "max_tokens") {
        Some(StopReason::MaxTokens)
    } else if text::same(name, "tool_use") {
        Some(StopReason::ToolUse)
    } else if text::same(name, "stop_sequence") {
        Some(StopReason::StopSequence)
    } else {
        None
    }
}

fn usage_in(usage: Option<&Json>) -> (r: Option<Usage>)
    ensures
        r == usage_of(seen(usage)),
{
    match usage {
        Some(u) => match u {
            Json::Object(_) => Some(
                Usage {
                    input_tokens: match u.u64_at("input_tokens") {
                        Some(n) => n,
                        None => 0,
                    },
                    output_tokens: match u.u64_at("output_tokens") {
                        Some(n) => n,
                        None => 0,
                    },
                    total_tokens: 0,
                },
            ),
            _ => None,
        },
        None => None,
    }
}

/// The event of a type, with its data already read.
pub fn event_from(event_type: &str, data: &Json) -> (r: Option<StreamEvent>)
    ensures
        event_view(r) == event_of(event_type@, data@),
{
    assert(""@ =~= Seq::<char>::empty()) by {
        reveal_strlit("");
    }
    if text::same(event_type, "message_start") {
        let message = data.get("message");
        Some(
            StreamEvent::MessageStart {
                id: member_text(message, "id", ""),
                model: member_text(message, "model", ""),
            },
        )
    } else if text::same(event_type, "content_block_start") {
        let index = block_index(data);
        let block = data.get("content_block");
        let block_type = member_text(block, "type", "text");
        if text::same(block_type.as_str(), "redacted_thinking") {
            return Some(
                StreamEvent::RedactedThinking { index, data: member_text(block, "data", "") },
            );
        }
        Some(
            StreamEvent::ContentBlockStart {
                index,
                block_type,
                id: member_opt_text(block, "id"),
                name: member_opt_text(block, "name"),
            },
        )
    } else if text::same(event_type, "content_block_delta") {
        delta_event(block_index(data), data.get("delta"))
    } else if text::same(event_type, "content_block_stop") {
        Some(StreamEvent::ContentBlockStop { index: block_index(data) })
    } else if text::same(event_type, "message_delta") {
        let stop_reason = match member_opt_text(data.get("delta"), "stop_reason") {
            Some(s) => stop_reason_named(s.as_str()),
            None => None,
        };
        Some(StreamEvent::MessageDelta { stop_reason, usage: usage_in(data.get("usage")) })
    } else if text::same(event_type, "message_stop") {
        Some(StreamEvent::MessageStop)
    } else if text::same(event_type, "ping") {
        Some(StreamEvent::Ping)
    } else if text::same(event_type, "error") {
        Some(
            StreamEvent::Error {
                message: member_text(data.get("error"), "message", "Unknown error"),
                kind: StreamErrorKind::Provider,
            },
        )
    } else {
        None
    }
}

/// The text of the last line that begins with `prefix`.
pub fn field(lines: &Vec<String>, prefix: &str) -> (r: String)
    ensures
        r@ == last_field(text::views(lines@), prefix@),
{
    let ghost all = text::views(lines@);
    let mut i: usize = lines.len();
    assert(all.take(i as int) =~= all);
    while i > 0
        invariant
            i <= lines@.len(),
            all == text::views(lines@),
            last_field(all, prefix@) == last_field(all.take(i as int), prefix@),
        decreases i,
    {
        assert(all.take(i as int).drop_last() =~= all.take(i - 1));
        assert(all.take(i as int).last() == lines@[i - 1]@);
        match text::strip_prefix(lines[i - 1].as_str(), prefix) {
            Some(rest) => {
                return text::trim(rest.as_str());
            },
            None => {},
        }
        i = i - 1;
    }
    String::new()
}

/// Reads one frame of the stream.
pub fn parse_sse_event(raw: &str) -> (r: Option<StreamEvent>)
    ensures
        event_view(r) == sse_event(raw@),
{
    let lines = text::lines(raw);
    let event_type = field(&lines, "event: ");
    let data = field(&lines, "data: ");
    match json::parse(data.as_str()) {
        Some(value) => event_from(event_type.as_str(), &value),
        None => None,
    }
}

/// The events that a list of frames stands for, in order; a frame that stands for
/// none is skipped.
pub open spec fn sse_events(frames: Seq<Seq<char>>) -> Seq<types::EventView>
    decreases frames.len(),
{
    if frames.len() == 0 {
        Seq::empty()
    } else {
        match sse_event(frames.last()) {
            Some(e) => sse_events(frames.drop_last()).push(e),
            None => sse_events(frames.drop_last()),
        }
    }
}

/// The reader of a response stream.
pub struct SseReader {
    pub buffer: FrameBuffer,
}

impl SseReader {
    /// A reader at the start of a stream.
    pub fn new() -> (r: SseReader)
        ensures
            r.buffer.pending@ == Seq::<char>::empty(),
    {
        SseReader { buffer: FrameBuffer::new() }
    }

    /// Takes in a chunk of text and hands out the events that it completes.
    pub fn feed_text(&mut self, chunk: &str) -> (r: Vec<StreamEvent>)
        ensures
            types::events_view(r@) == sse_events(
                framing::frames(old(self).buffer.pending@ + chunk@, "\n\n"@),
            ),
            final(self).buffer.pending@ == framing::rest(
                old(self).buffer.pending@ + chunk@,
                "\n\n"@,
            ),
    {
        assert("\n\n"@.len() == 2) by {
            reveal_strlit("\n\n");
        }
        let frames = self.buffer.push(chunk, "\n\n");
        let mut out: Vec<StreamEvent> = Vec::new();
        let mut i: usize = 0;
        let ghost all = text::views(frames@);
        assert(types::events_view(out@) =~= sse_events(all.take(0)));
        while i < frames.len()
            invariant
                i <= frames@.len(),
                all == text::views(frames@),
                types::events_view(out@) == sse_events(all.take(i as int)),
            decreases frames@.len() - i,
        {
            assert(all.take(i + 1).drop_last() =~= all.take(i as int));
            assert(all.take(i + 1).last() == frames@[i as int]@);
            let ghost before = out@;
            if let Some(e) = parse_sse_event(frames[i].as_str()) {
                out.push(e);
                assert(types::events_view(out@) =~= types::events_view(before).push(e@));
            }
            i = i + 1;
        }
        assert(all.take(i as int) =~= all);
        out
    }

    /// Takes in a chunk of bytes and hands out the events that it completes.
    pub fn feed(&mut self, bytes: &[u8]) -> (r: Vec<StreamEvent>)
        ensures
            types::events_view(r@) == sse_events(
                framing::frames(
                    old(self).buffer.pending@ + text::utf8_lossy(bytes@),
                    "\n\n"@,
                ),
            ),
            final(self).buffer.pending@ == framing::rest(
                old(self).buffer.pending@ + text::utf8_lossy(bytes@),
                "\n\n"@,
            ),
    {
        let chunk = text::from_utf8_lossy(bytes);
        self.feed_text(chunk.as_str())
    }
}

proof fn lemma_sse_events_concat(a: Seq<Seq<char>>, b: Seq<Seq<char>>)
    ensures
        sse_events(a + b) == sse_events(a) + sse_events(b),
    decreases b.len(),
{
    if b.len() == 0 {
        assert(a + b =~= a);
        assert(sse_events(a) + sse_events(b) =~= sse_events(a));
    } else {
        lemma_sse_events_concat(a, b.drop_last());
        assert((a + b).drop_last() =~= a + b.drop_last());
        assert((a + b).last() == b.last());
        match sse_event(b.last()) {
            Some(e) => {
                assert((sse_events(a) + sse_events(b.drop_last())).push(e) =~= sse_events(a)
                    + sse_events(b.drop_last()).push(e));
            },
            None => {},
        }
    }
}

/// The events of a stream do not depend on where its chunks end: what is read of
/// a chunk and then of more text is what is read of both together.
pub proof fn events_ignore_chunk_boundaries(pending: Seq<char>, chunk: Seq<char>, more: Seq<char>)
    ensures
        sse_events(framing::frames(pending + chunk + more, "\n\n"@)) == sse_events(
            framing::frames(pending + chunk, "\n\n"@),
        ) + sse_events(
            framing::frames(framing::rest(pending + chunk, "\n\n"@) + more, "\n\n"@),
        ),
        framing::rest(pending + chunk + more, "\n\n"@) == framing::rest(
            framing::rest(pending + chunk, "\n\n"@) + more,
            "\n\n"@,
        ),
{
    reveal_strlit("\n\n");
    framing::frames_ignore_chunk_boundaries(pending + chunk, more, "\n\n"@);
    lemma_sse_events_concat(
        framing::frames(pending + chunk, "\n\n"@),
        framing::frames(framing::rest(pending + chunk, "\n\n"@) + more, "\n\n"@),
    );
}

/// The event that tells of a response with an error status.
pub fn http_error(status: u16, body: &str) -> (r: StreamEvent)
    ensures
        r@ == (types::EventView::Error {
            message: "HTTP "@ + text::decimal(status as nat) + ": "@ + body@,
            kind: StreamErrorKind::Http { status },
        }),
{
    let mut message = "HTTP ".to_string();
    text::push_decimal(&mut message, status as u64);
    message.append(": ");
    message.append(body);
    StreamEvent::Error { message, kind: StreamErrorKind::Http { status } }
}

/// The event that tells of a failed connection.
pub fn transport_error(message: String) -> (r: StreamEvent)
    ensures
        r == (StreamEvent::Error { message, kind: StreamErrorKind::Transport }),
{
    StreamEvent::Error { message, kind: StreamErrorKind::Transport }
}

/// The mark that ends the cached prefix of a request.
pub open spec fn ephemeral() -> json::JsonView {
    json::JsonView::Object(wire::typed("ephemeral"@))
}

/// The messages of the body: all but those of the system.
pub open spec fn messages_json(messages: Seq<types::MessageView>) -> Seq<json::JsonView>
    decreases messages.len(),
{
    if messages.len() == 0 {
        Seq::empty()
    } else if messages.last().role == Role::System {
        messages_json(messages.drop_last())
    } else {
        messages_json(messages.drop_last()).push(message_json(messages.last()))
    }
}

/// One message of the body.
pub open spec fn message_json(message: types::MessageView) -> json::JsonView {
    json::JsonView::Object(
        wire::nothing().insert(
            "role"@,
            json::JsonView::Str(wire::role_name(message.role)),
        ).insert("content"@, wire::content_json(message.content)),
    )
}

/// One tool of the body.
pub open spec fn tool_json(tool: types::ToolView, last: bool) -> json::JsonView {
    let o = wire::nothing().insert("name"@, json::JsonView::Str(tool.name)).insert(
        "description"@,
        json::JsonView::Str(tool.description),
    ).insert("input_schema"@, tool.input_schema);
    json::JsonView::Object(
        if last {
            o.insert("cache_control"@, ephemeral())
        } else {
            o
        },
    )
}

/// The tools of the body; the last one ends the cached prefix.
pub open spec fn tools_json(tools: Seq<types::ToolView>) -> Seq<json::JsonView> {
    Seq::new(tools.len(), |i: int| tool_json(tools[i], i == tools.len() - 1))
}

/// The system prompt as a block that is cached.
pub open spec fn system_json(system: Seq<char>) -> json::JsonView {
    json::JsonView::Array(
        seq![
            json::JsonView::Object(
                wire::typed("text"@).insert("text"@, json::JsonView::Str(system)).insert(
                    "cache_control"@,
                    ephemeral(),
                ),
            ),
        ],
    )
}

/// The members of the body that say how the model is to think: a budget where
/// there is one; else an explicit "off" where that was asked for; else nothing,
/// which leaves it to the model.
pub open spec fn with_thinking(
    o: Map<Seq<char>, json::JsonView>,
    budget: Option<u32>,
    disabled: bool,
) -> Map<Seq<char>, json::JsonView> {
    match budget {
        Some(n) => o.insert(
            "thinking"@,
            json::JsonView::Object(
                wire::typed("enabled"@).insert("budget_tokens"@, json::JsonView::UInt(n as u64)),
            ),
        ),
        None => if disabled {
            o.insert("thinking"@, json::JsonView::Object(wire::typed("disabled"@)))
        } else {
            o
        },
    }
}

/// Whether an explicit "off" for thinking was asked for.
pub open spec fn thinking_disabled(options: Map<Seq<char>, json::JsonView>) -> bool {
    options.contains_key("thinking_disabled"@) && options["thinking_disabled"@]
        == json::JsonView::Bool(true)
}

/// The members that every body has.
pub open spec fn base_members(request: types::RequestView) -> Map<Seq<char>, json::JsonView> {
    wire::nothing().insert("max_tokens"@, json::JsonView::UInt(request.max_tokens as u64)).insert(
        "messages"@,
        json::JsonView::Array(messages_json(request.messages)),
    ).insert("stream"@, json::JsonView::Bool(true))
}

/// The body of a request.
pub open spec fn body_json(
    model: Option<Seq<char>>,
    request: types::RequestView,
    thinking_budget: Option<u32>,
    vertex_version: Option<Seq<char>>,
) -> json::JsonView {
    let o = wire::with_text(base_members(request), "model"@, model);
    let o = wire::with_text(o, "anthropic_version"@, vertex_version);
    let o = match request.system {
        Some(s) => o.insert("system"@, system_json(s)),
        None => o,
    };
    let o = if request.tools.len() > 0 {
        o.insert("tools"@, json::JsonView::Array(tools_json(request.tools)))
    } else {
        o
    };
    let o = match request.temperature {
        Some(t) => o.insert("temperature"@, t),
        None => o,
    };
    let o = if request.stop_sequences.len() > 0 {
        o.insert(
            "stop_sequences"@,
            json::JsonView::Array(wire::texts_json(request.stop_sequences)),
        )
    } else {
        o
    };
    json::JsonView::Object(with_thinking(o, thinking_budget, thinking_disabled(request.options)))
}

fn ephemeral_mark() -> (r: Json)
    ensures
        r@ == ephemeral(),
{
    Json::Object(wire::typed_object("ephemeral"))
}

fn messages_to_json(messages: &Vec<Message>) -> (r: Vec<Json>)
    ensures
        json::items_view(r@) == messages_json(types::messages_view(messages@)),
{
    let mut out: Vec<Json> = Vec::new();
    let mut i: usize = 0;
    let ghost all = types::messages_view(messages@);
    assert(all.take(0) =~= Seq::empty());
    while i < messages.len()
        invariant
            i <= messages@.len(),
            all == types::messages_view(messages@),
            json::items_view(out@) == messages_json(all.take(i as int)),
        decreases messages@.len() - i,
    {
        assert(all.take(i + 1).drop_last() =~= all.take(i as int));
        assert(all.take(i + 1).last() == messages@[i as int]@);
        let m = &messages[i];
        if m.role != Role::System {
            let mut o = JsonObject::new();
            o.set("role", Json::str(wire::role_text(m.role)));
            o.set("content", wire::content_to_json(&m.content));
            let ghost before = out@;
            let j = Json::Object(o);
            assert(j@ == message_json(messages@[i as int]@));
            out.push(j);
            assert(out@.drop_last() =~= before);
        }
        i = i + 1;
    }
    assert(all.take(i as int) =~= all);
    out
}

fn tools_to_json(tools: &Vec<ToolDefinition>) -> (r: Vec<Json>)
    ensures
        json::items_view(r@) == tools_json(types::tools_view(tools@)),
{
    let mut out: Vec<Json> = Vec::new();
    let mut i: usize = 0;
    while i < tools.len()
        invariant
            i <= tools@.len(),
            out@.len() == i,
            forall|j: int|
                0 <= j < i ==> #[trigger] out@[j]@ == tool_json(
                    tools@[j]@,
                    j == tools@.len() - 1,
                ),
        decreases tools@.len() - i,
    {
        let t = &tools[i];
        let mut o = JsonObject::new();
        o.set("name", Json::Str(t.name.clone()));
        o.set("description", Json::Str(t.description.clone()));
        o.set("input_schema", t.input_schema.copy());
        if i == tools.len() - 1 {
            o.set("cache_control", ephemeral_mark());
        }
        out.push(Json::Object(o));
        i = i + 1;
    }
    proof {
        json::lemma_items_view(out@);
        assert(json::items_view(out@) =~= tools_json(types::tools_view(tools@)));
    }
    out
}

/// A list of one element.
fn one(j: Json) -> (r: Json)
    ensures
        r@ == json::JsonView::Array(seq![j@]),
{
    let mut v: Vec<Json> = Vec::new();
    v.push(j);
    proof {
        json::lemma_items_view(v@);
        assert(json::items_view(v@) =~= seq![j@]);
    }
    Json::Array(v)
}

/// Builds the body of a request. The model stands in the body for the direct
/// API; for Vertex it stands in the URL, and the body names a version instead.
/// The system prompt and the last tool end prefixes that the API caches.
pub fn build_anthropic_body(
    model: Option<&str>,
    request: &CompletionRequest,
    thinking_budget: Option<u32>,
    vertex_version: Option<&str>,
) -> (r: Json)
    ensures
        r@ == body_json(
            match model {
                Some(m) => Some(m@),
                None => None,
            },
            request@,
            thinking_budget,
            match vertex_version {
                Some(v) => Some(v@),
                None => None,
            },
        ),
{
    let mut o = JsonObject::new();
    o.set("max_tokens", Json::UInt(request.max_tokens as u64));
    o.set("messages", Json::Array(messages_to_json(&request.messages)));
    o.set("stream", Json::Bool(true));
    if let Some(m) = model {
        o.set("model", Json::str(m));
    }
    if let Some(v) = vertex_version {
        o.set("anthropic_version", Json::str(v));
    }
    if let Some(system) = &request.system {
        let mut block = wire::typed_object("text");
        block.set("text", Json::Str(system.clone()));
        block.set("cache_control", ephemeral_mark());
        o.set("system", one(Json::Object(block)));
    }
    if request.tools.len() > 0 {
        o.set("tools", Json::Array(tools_to_json(&request.tools)));
    }
    if let Some(t) = &request.temperature {
        o.set("temperature", t.copy());
    }
    if request.stop_sequences.len() > 0 {
        o.set("stop_sequences", Json::Array(wire::texts_to_json(&request.stop_sequences)));
    }
    match thinking_budget {
        Some(budget) => {
            let mut t = wire::typed_object("enabled");
            t.set("budget_tokens", Json::UInt(budget as u64));
            o.set("thinking", Json::Object(t));
        },
        None => if request.options.is_set("thinking_disabled") {
            o.set("thinking", Json::Object(wire::typed_object("disabled")));
        },
    }
    Json::Object(o)
}

/// A token of the OAuth flow.
#[derive(Clone, Debug, PartialEq)]
pub struct OAuthToken {
    pub access_token: String,
    pub refresh_token: Option<String>,
}

/// How a request is authorised. The credentials of a custom provider are asked
/// for at the time of the request.
#[derive(Clone, Debug, PartialEq)]
pub enum Auth {
    ApiKey(String),
    Bearer(String),
    OAuth { client_id: String, token: OAuthToken },
    Custom,
}

/// A header by its name and value.
pub open spec fn header(h: (String, String)) -> (Seq<char>, Seq<char>) {
    (h.0@, h.1@)
}

/// The headers by their names and values.
pub open spec fn headers_view(h: Seq<(String, String)>) -> Seq<(Seq<char>, Seq<char>)> {
    Seq::new(h.len(), |i: int| header(h[i]))
}

/// The header that authorises a request; none for a custom provider.
pub open spec fn auth_header(auth: Auth) -> Option<(Seq<char>, Seq<char>)> {
    match auth {
        Auth::ApiKey(key) => Some(("x-api-key"@, key@)),
        Auth::Bearer(token) => Some(("authorization"@, "Bearer "@ + token@)),
        Auth::OAuth { token, .. } => Some(("authorization"@, "Bearer "@ + token.access_token@)),
        Auth::Custom => None,
    }
}

/// A request as it is handed to the HTTP client.
#[derive(Debug, PartialEq)]
pub struct HttpRequest {
    pub url: String,
    pub headers: Vec<(String, String)>,
    pub body: Json,
}

/// The direct Anthropic API.
#[derive(Clone, Debug, PartialEq)]
pub struct Anthropic {
    pub auth: Auth,
    pub base_url: String,
    pub default_model: String,
    pub thinking_budget: Option<u32>,
    pub max_retries: u32,
}

/// The model that is asked: that of the request, or the default.
pub open spec fn model_for(requested: Seq<char>, default: Seq<char>) -> Seq<char> {
    if requested.len() == 0 {
        default
    } else {
        requested
    }
}

/// The thinking budget: that of the request's options, or that of the provider.
pub open spec fn budget_for(
    options: Map<Seq<char>, json::JsonView>,
    own: Option<u32>,
) -> Option<u32> {
    match types::option_u32(options, "thinking_budget"@) {
        Some(n) => Some(n),
        None => own,
    }
}

/// The model that is asked.
pub fn choose_model(requested: &str, default: &str) -> (r: String)
    ensures
        r@ == model_for(requested@, default@),
{
    if text::chars_of(requested).len() == 0 {
        default.to_string()
    } else {
        requested.to_string()
    }
}

/// The thinking budget of a request.
pub fn choose_budget(request: &CompletionRequest, own: Option<u32>) -> (r: Option<u32>)
    ensures
        r == budget_for(request@.options, own),
{
    match request.options.get_u32("thinking_budget") {
        Some(n) => Some(n),
        None => own,
    }
}

/// The base address: the one configured, unless it is missing or empty.
pub open spec fn base_or(configured: Option<String>, default: Seq<char>) -> Seq<char> {
    match configured {
        Some(u) => if u@.len() == 0 {
            default
        } else {
            u@
        },
        None => default,
    }
}

/// The base address that is used.
pub fn choose_base(configured: Option<String>, default: &str) -> (r: String)
    ensures
        r@ == base_or(configured, default@),
{
    match configured {
        Some(u) => if text::chars_of(u.as_str()).len() == 0 {
            default.to_string()
        } else {
            u
        },
        None => default.to_string(),
    }
}

impl Anthropic {
    /// The provider with these credentials. `configured_base` is the value of
    /// `ANTHROPIC_BASE_URL`; `default_model` is asked where a request names no model.
    pub fn new(auth: Auth, configured_base: Option<String>, default_model: &str) -> (r: Anthropic)
        ensures
            r.auth == auth,
            r.base_url@ == base_or(configured_base, ANTHROPIC_API_BASE@),
            r.default_model@ == default_model@,
            r.thinking_budget is None,
            r.max_retries == 5,
    {
        Anthropic {
            auth,
            base_url: choose_base(configured_base, ANTHROPIC_API_BASE),
            default_model: default_model.to_string(),
            thinking_budget: None,
            max_retries: 5,
        }
    }

    /// The provider with the key of the environment. `key` is the value of
    /// `ANTHROPIC_API_KEY`, `configured_base` that of `ANTHROPIC_BASE_URL`.
    pub fn from_env(
        key: Option<String>,
        configured_base: Option<String>,
        default_model: &str,
    ) -> (r: Result<Anthropic, CerseiError>)
        ensures
            match key {
                Some(k) => r matches Ok(a) && a.auth == Auth::ApiKey(k) && a.base_url@ == base_or(
                    configured_base,
                    ANTHROPIC_API_BASE@,
                ) && a.default_model@ == default_model@ && a.thinking_budget is None
                    && a.max_retries == 5,
                None => r matches Err(CerseiError::Auth(m)) && m@ == "ANTHROPIC_API_KEY not set"@,
            },
    {
        match key {
            Some(k) => Ok(Anthropic::new(Auth::ApiKey(k), configured_base, default_model)),
            None => Err(CerseiError::Auth("ANTHROPIC_API_KEY not set".to_string())),
        }
    }

    /// A builder without settings.
    pub fn builder() -> (r: AnthropicBuilder)
        ensures
            r == AnthropicBuilder::unset(),
    {
        AnthropicBuilder {
            api_key: None,
            base_url: None,
            model: None,
            thinking_budget: None,
            oauth_token: None,
            max_retries: None,
        }
    }

    /// The header that authorises a request; none where the credentials are to be
    /// asked of a custom provider.
    pub fn auth_headers(&self) -> (r: Option<(String, String)>)
        ensures
            match r {
                Some(h) => auth_header(self.auth) == Some(header(h)),
                None => auth_header(self.auth) is None,
            },
    {
        match &self.auth {
            Auth::ApiKey(key) => Some(("x-api-key".to_string(), key.clone())),
            Auth::Bearer(token) => Some(
                ("authorization".to_string(), text::cat("Bearer ", token.as_str())),
            ),
            Auth::OAuth { token, .. } => Some(
                ("authorization".to_string(), text::cat("Bearer ", token.access_token.as_str())),
            ),
            Auth::Custom => None,
        }
    }

    /// The name of the provider.
    pub fn name(&self) -> (r: &'static str)
        ensures
            r@ == "anthropic"@,
    {
        "anthropic"
    }

    /// The size of the context window of every model, in tokens.
    pub fn context_window(&self, model: &str) -> (r: u64)
        ensures
            r == 200_000,
    {
        200_000
    }

    /// What the provider can do.
    pub fn capabilities(&self, model: &str) -> (r: ProviderCapabilities)
        ensures
            r == (ProviderCapabilities {
                streaming: true,
                tool_use: true,
                vision: true,
                thinking: true,
                system_prompt: true,
                caching: true,
            }),
    {
        ProviderCapabilities {
            streaming: true,
            tool_use: true,
            vision: true,
            thinking: true,
            system_prompt: true,
            caching: true,
        }
    }

    /// The HTTP request for a completion, with the credentials in a header.
    pub fn plan(&self, request: &CompletionRequest, credentials: (String, String)) -> (r:
        HttpRequest)
        ensures
            r.url@ == self.base_url@ + "/v1/messages"@,
            headers_view(r.headers@) == seq![
                ("anthropic-version"@, ANTHROPIC_API_VERSION@),
                ("anthropic-beta"@, ANTHROPIC_BETA_HEADER@),
                ("content-type"@, "application/json"@),
                header(credentials),
            ],
            r.body@ == body_json(
                Some(model_for(request.model@, self.default_model@)),
                request@,
                budget_for(request@.options, self.thinking_budget),
                None,
            ),
    {
        let model = choose_model(request.model.as_str(), self.default_model.as_str());
        let budget = choose_budget(request, self.thinking_budget);
        let body = build_anthropic_body(Some(model.as_str()), request, budget, None);
        let mut headers: Vec<(String, String)> = Vec::new();
        headers.push(("anthropic-version".to_string(), ANTHROPIC_API_VERSION.to_string()));
        headers.push(("anthropic-beta".to_string(), ANTHROPIC_BETA_HEADER.to_string()));
        headers.push(("content-type".to_string(), "application/json".to_string()));
        headers.push(credentials);
        assert(headers_view(headers@) =~= seq![
            ("anthropic-version"@, ANTHROPIC_API_VERSION@),
            ("anthropic-beta"@, ANTHROPIC_BETA_HEADER@),
            ("content-type"@, "application/json"@),
            header(credentials),
        ]);
        HttpRequest { url: text::cat(self.base_url.as_str(), "/v1/messages"), headers, body }
    }
}

/// Settings for an [`Anthropic`] provider.
#[derive(Clone, Debug, PartialEq)]
pub struct AnthropicBuilder {
    pub api_key: Option<String>,
    pub base_url: Option<String>,
    pub model: Option<String>,
    pub thinking_budget: Option<u32>,
    pub oauth_token: Option<OAuthToken>,
    pub max_retries: Option<u32>,
}

/// The text of a setting, or a default.
pub open spec fn setting_or(s: Option<String>, default: Seq<char>) -> Seq<char> {
    match s {
        Some(t) => t@,
        None => default,
    }
}

/// The text of a setting, or a default.
pub fn setting(s: Option<String>, default: &str) -> (r: String)
    ensures
        r@ == setting_or(s, default@),
{
    match s {
        Some(t) => t,
        None => default.to_string(),
    }
}

impl AnthropicBuilder {
    /// No settings.
    pub open spec fn unset() -> AnthropicBuilder {
        AnthropicBuilder {
            api_key: None,
            base_url: None,
            model: None,
            thinking_budget: None,
            oauth_token: None,
            max_retries: None,
        }
    }

    pub fn api_key(self, key: String) -> (r: AnthropicBuilder)
        ensures
            r == (AnthropicBuilder { api_key: Some(key), ..self }),
    {
        AnthropicBuilder { api_key: Some(key), ..self }
    }

    pub fn base_url(self, url: String) -> (r: AnthropicBuilder)
        ensures
            r == (AnthropicBuilder { base_url: Some(url), ..self }),
    {
        AnthropicBuilder { base_url: Some(url), ..self }
    }

    pub fn model(self, model: String) -> (r: AnthropicBuilder)
        ensures
            r == (AnthropicBuilder { model: Some(model), ..self }),
    {
        AnthropicBuilder { model: Some(model), ..self }
    }

    pub fn thinking(self, budget_tokens: u32) -> (r: AnthropicBuilder)
        ensures
            r == (AnthropicBuilder { thinking_budget: Some(budget_tokens), ..self }),
    {
        AnthropicBuilder { thinking_budget: Some(budget_tokens), ..self }
    }

    pub fn oauth(self, token: OAuthToken) -> (r: AnthropicBuilder)
        ensures
            r == (AnthropicBuilder { oauth_token: Some(token), ..self }),
    {
        AnthropicBuilder { oauth_token: Some(token), ..self }
    }

    pub fn max_retries(self, n: u32) -> (r: AnthropicBuilder)
        ensures
            r == (AnthropicBuilder { max_retries: Some(n), ..self }),
    {
        AnthropicBuilder { max_retries: Some(n), ..self }
    }

    /// The provider with these settings. It needs a token or a key; a token goes
    /// before a key. `default_model` is asked where the settings and a request name no
    /// model.
    pub fn build(self, default_model: &str) -> (r: Result<Anthropic, CerseiError>)
        ensures
            self.oauth_token is None && self.api_key is None ==> (r matches Err(
                CerseiError::Auth(m),
            ) && m@
                == "No API key or OAuth token provided. Set ANTHROPIC_API_KEY or use .oauth()"@),
            self.oauth_token is Some || self.api_key is Some ==> {
                &&& r matches Ok(a)
                &&& match self.oauth_token {
                    Some(t) => a.auth matches Auth::OAuth { client_id, token } && client_id@
                        == Seq::<char>::empty() && token == t,
                    None => a.auth == Auth::ApiKey(self.api_key->0),
                }
                &&& a.base_url@ == setting_or(self.base_url, ANTHROPIC_API_BASE@)
                &&& a.default_model@ == setting_or(self.model, default_model@)
                &&& a.thinking_budget == self.thinking_budget
                &&& a.max_retries == (match self.max_retries {
                    Some(n) => n,
                    None => 5u32,
                })
            },
    {
        let auth = match self.oauth_token {
            Some(token) => Auth::OAuth { client_id: String::new(), token },
            None => match self.api_key {
                Some(key) => Auth::ApiKey(key),
                None => {
                    return Err(
                        CerseiError::Auth(
                            "No API key or OAuth token provided. Set ANTHROPIC_API_KEY or use .oauth()".to_string(),
                        ),
                    );
                },
            },
        };
        Ok(
            Anthropic {
                auth,
                base_url: setting(self.base_url, ANTHROPIC_API_BASE),
                default_model: setting(self.model, default_model),
                thinking_budget: self.thinking_budget,
                max_retries: match self.max_retries {
                    Some(n) => n,
                    None => 5,
                },
            },
        )
    }
}

impl Default for AnthropicBuilder {
    fn default() -> (r: AnthropicBuilder)
        ensures
            r == AnthropicBuilder::unset(),
    {
        Anthropic::builder()
    }
}

/// The last tool of a body ends the cached prefix, and no other tool does.
pub proof fn only_the_last_tool_is_marked(tools: Seq<types::ToolView>, i: int)
    requires
        0 <= i < tools.len(),
    ensures
        tools_json(tools)[i].has("cache_control"@) <==> i == tools.len() - 1,
{
    reveal_strlit("name");
    reveal_strlit("description");
    reveal_strlit("input_schema");
    reveal_strlit("cache_control");
    assert("name"@.len() == 4);
    assert("description"@.len() == 11);
    assert("input_schema"@.len() == 12);
    assert("cache_control"@.len() == 13);
}

/// A thinking budget goes before an explicit "off".
pub proof fn thinking_budget_wins(
    o: Map<Seq<char>, json::JsonView>,
    budget: u32,
    disabled: bool,
)
    ensures
        with_thinking(o, Some(budget), disabled) == with_thinking(o, Some(budget), false),
{
}

proof fn lemma_event_names()
    ensures
        "message_start"@ != "content_block_start"@,
        "message_start"@ != "content_block_delta"@,
        "message_start"@ != "content_block_stop"@,
        "message_start"@ != "message_delta"@,
        "message_start"@ != "message_stop"@,
        "message_start"@ != "ping"@,
        "message_start"@ != "error"@,
        "content_block_start"@ != "content_block_delta"@,
        "content_block_start"@ != "content_block_stop"@,
        "content_block_start"@ != "message_delta"@,
        "content_block_start"@ != "message_stop"@,
        "content_block_start"@ != "ping"@,
        "content_block_start"@ != "error"@,
        "content_block_delta"@ != "content_block_stop"@,
        "content_block_delta"@ != "message_delta"@,
        "content_block_delta"@ != "message_stop"@,
        "content_block_delta"@ != "ping"@,
        "content_block_delta"@ != "error"@,
        "content_block_stop"@ != "message_delta"@,
        "content_block_stop"@ != "message_stop"@,
        "content_block_stop"@ != "ping"@,
        "content_block_stop"@ != "error"@,
        "message_delta"@ != "message_stop"@,
        "message_delta"@ != "ping"@,
        "message_delta"@ != "error"@,
        "message_stop"@ != "ping"@,
        "message_stop"@ != "error"@,
        "ping"@ != "error"@,
{
    reveal_strlit("message_start");
    reveal_strlit("content_block_start");
    reveal_strlit("content_block_delta");
    reveal_strlit("content_block_stop");
    reveal_strlit("message_delta");
    reveal_strlit("message_stop");
    reveal_strlit("ping");
    reveal_strlit("error");
    assert("message_start"@.len() == 13);
    assert("content_block_start"@.len() == 19);
    assert("content_block_delta"@.len() == 19);
    assert("content_block_stop"@.len() == 18);
    assert("message_delta"@.len() == 13);
    assert("message_stop"@.len() == 12);
    assert("ping"@.len() == 4);
    assert("error"@.len() == 5);
    assert("message_start"@[8] != "message_delta"@[8]);
    assert("content_block_start"@[14] != "content_block_delta"@[14]);
}

proof fn lemma_delta_names()
    ensures
        "text_delta"@ != "input_json_delta"@,
        "text_delta"@ != "thinking_delta"@,
        "text_delta"@ != "signature_delta"@,
        "input_json_delta"@ != "thinking_delta"@,
        "input_json_delta"@ != "signature_delta"@,
        "thinking_delta"@ != "signature_delta"@,
{
    reveal_strlit("text_delta");
    reveal_strlit("input_json_delta");
    reveal_strlit("thinking_delta");
    reveal_strlit("signature_delta");
    assert("text_delta"@.len() == 10);
    assert("input_json_delta"@.len() == 16);
    assert("thinking_delta"@.len() == 14);
    assert("signature_delta"@.len() == 15);
}

proof fn lemma_block_names()
    ensures
        "text"@ != "tool_use"@,
        "text"@ != "thinking"@,
        "text"@ != "redacted_thinking"@,
        "tool_use"@ != "thinking"@,
        "tool_use"@ != "redacted_thinking"@,
        "thinking"@ != "redacted_thinking"@,
{
    reveal_strlit("text");
    reveal_strlit("tool_use");
    reveal_strlit("thinking");
    reveal_strlit("redacted_thinking");
    assert("text"@.len() == 4);
    assert("tool_use"@.len() == 8);
    assert("thinking"@.len() == 8);
    assert("redacted_thinking"@.len() == 17);
    assert("tool_use"@[1] != "thinking"@[1]);
}

proof fn lemma_stop_names()
    ensures
        "end_turn"@ != "tool_use"@,
        "end_turn"@ != "max_tokens"@,
        "end_turn"@ != "stop_sequence"@,
        "tool_use"@ != "max_tokens"@,
        "tool_use"@ != "stop_sequence"@,
        "max_tokens"@ != "stop_sequence"@,
{
    reveal_strlit("end_turn");
    reveal_strlit("tool_use");
    reveal_strlit("max_tokens");
    reveal_strlit("stop_sequence");
    assert("end_turn"@.len() == 8);
    assert("tool_use"@.len() == 8);
    assert("max_tokens"@.len() == 10);
    assert("stop_sequence"@.len() == 13);
    assert("end_turn"@[0] != "tool_use"@[0]);
}

/// Every delta of a block carries, unchanged, the text of the member that belongs to its
/// type, to the block whose index the frame names.
pub proof fn deltas_carry_their_texts(
    data: Map<Seq<char>, json::JsonView>,
    delta: Map<Seq<char>, json::JsonView>,
    index: u64,
    t: Seq<char>,
)
    requires
        index <= usize::MAX,
        json::holds(data, "index"@, json::JsonView::UInt(index)),
        json::holds(data, "delta"@, json::JsonView::Object(delta)),
    ensures
        ({
            let event = event_of("content_block_delta"@, json::JsonView::Object(data));
            let at = index as usize;
            &&& json::holds(delta, "type"@, json::JsonView::Str("text_delta"@)) && json::holds(
                delta,
                "text"@,
                json::JsonView::Str(t),
            ) ==> event == Some(types::EventView::TextDelta { index: at, text: t })
            &&& json::holds(delta, "type"@, json::JsonView::Str("input_json_delta"@)) && json::holds(
                delta,
                "partial_json"@,
                json::JsonView::Str(t),
            ) ==> event == Some(types::EventView::InputJsonDelta { index: at, partial_json: t })
            &&& json::holds(delta, "type"@, json::JsonView::Str("thinking_delta"@)) && json::holds(
                delta,
                "thinking"@,
                json::JsonView::Str(t),
            ) ==> event == Some(types::EventView::ThinkingDelta { index: at, thinking: t })
            &&& json::holds(delta, "type"@, json::JsonView::Str("signature_delta"@)) && json::holds(
                delta,
                "signature"@,
                json::JsonView::Str(t),
            ) ==> event == Some(types::EventView::SignatureDelta { index: at, signature: t })
        }),
{
    lemma_event_names();
    lemma_delta_names();
}

/// A block starts at the index that the frame names, with the type, the id and the name
/// that stand in the frame; a block of redacted thinking comes whole, with its data.
pub proof fn blocks_start_as_they_are_announced(
    data: Map<Seq<char>, json::JsonView>,
    block: Map<Seq<char>, json::JsonView>,
    index: u64,
    id: Seq<char>,
    name: Seq<char>,
)
    requires
        index <= usize::MAX,
        json::holds(data, "index"@, json::JsonView::UInt(index)),
        json::holds(data, "content_block"@, json::JsonView::Object(block)),
    ensures
        ({
            let event = event_of("content_block_start"@, json::JsonView::Object(data));
            let at = index as usize;
            &&& json::holds(block, "type"@, json::JsonView::Str("tool_use"@)) && json::holds(
                block,
                "id"@,
                json::JsonView::Str(id),
            ) && json::holds(block, "name"@, json::JsonView::Str(name)) ==> event == Some(
                types::EventView::ContentBlockStart {
                    index: at,
                    block_type: "tool_use"@,
                    id: Some(id),
                    name: Some(name),
                },
            )
            &&& json::holds(block, "type"@, json::JsonView::Str("text"@)) && !block.contains_key("id"@)
                && !block.contains_key("name"@) ==> event == Some(
                types::EventView::ContentBlockStart {
                    index: at,
                    block_type: "text"@,
                    id: None,
                    name: None,
                },
            )
            &&& json::holds(block, "type"@, json::JsonView::Str("thinking"@)) && !block.contains_key(
                "id"@,
            ) && !block.contains_key("name"@) ==> event == Some(
                types::EventView::ContentBlockStart {
                    index: at,
                    block_type: "thinking"@,
                    id: None,
                    name: None,
                },
            )
            &&& json::holds(block, "type"@, json::JsonView::Str("redacted_thinking"@)) && json::holds(
                block,
                "data"@,
                json::JsonView::Str(id),
            ) ==> event == Some(types::EventView::RedactedThinking { index: at, data: id })
        }),
{
    lemma_event_names();
    lemma_block_names();
}

/// The other frames of a stream: a message starts with its id and model, a block stops
/// at its index, a message stops, and an error is told with its message.
pub proof fn frames_are_told_apart(
    data: Map<Seq<char>, json::JsonView>,
    inner: Map<Seq<char>, json::JsonView>,
    index: u64,
    a: Seq<char>,
    b: Seq<char>,
)
    requires
        index <= usize::MAX,
    ensures
        json::holds(data, "message"@, json::JsonView::Object(inner)) && json::holds(
            inner,
            "id"@,
            json::JsonView::Str(a),
        ) && json::holds(inner, "model"@, json::JsonView::Str(b)) ==> event_of(
            "message_start"@,
            json::JsonView::Object(data),
        ) == Some(types::EventView::MessageStart { id: a, model: b }),
        json::holds(data, "index"@, json::JsonView::UInt(index)) ==> event_of(
            "content_block_stop"@,
            json::JsonView::Object(data),
        ) == Some(types::EventView::ContentBlockStop { index: index as usize }),
        event_of("message_stop"@, json::JsonView::Object(data)) == Some(
            types::EventView::MessageStop,
        ),
        event_of("ping"@, json::JsonView::Object(data)) == Some(types::EventView::Ping),
        json::holds(data, "error"@, json::JsonView::Object(inner)) && json::holds(
            inner,
            "message"@,
            json::JsonView::Str(a),
        ) ==> (event_of("error"@, json::JsonView::Object(data)) matches Some(
            types::EventView::Error { message, .. },
        ) && message == a),
{
    lemma_event_names();
}

/// A message delta tells why the model stopped, by the names of the API, and what was
/// used: the tokens of the input and those of the output, each from its own member.
pub proof fn message_deltas_tell_the_end(
    data: Map<Seq<char>, json::JsonView>,
    delta: Map<Seq<char>, json::JsonView>,
    usage: Map<Seq<char>, json::JsonView>,
    input: u64,
    output: u64,
)
    requires
        json::holds(data, "delta"@, json::JsonView::Object(delta)),
        json::holds(data, "usage"@, json::JsonView::Object(usage)),
        json::holds(usage, "input_tokens"@, json::JsonView::UInt(input)),
        json::holds(usage, "output_tokens"@, json::JsonView::UInt(output)),
    ensures
        event_of("message_delta"@, json::JsonView::Object(data)) matches Some(
            types::EventView::MessageDelta { stop_reason, usage: used },
        ) && {
            &&& used matches Some(u) && u.input_tokens == input && u.output_tokens == output
            &&& json::holds(delta, "stop_reason"@, json::JsonView::Str("end_turn"@)) ==> stop_reason
                == Some(StopReason::EndTurn)
            &&& json::holds(delta, "stop_reason"@, json::JsonView::Str("tool_use"@)) ==> stop_reason
                == Some(StopReason::ToolUse)
            &&& json::holds(delta, "stop_reason"@, json::JsonView::Str("max_tokens"@)) ==> stop_reason
                == Some(StopReason::MaxTokens)
            &&& json::holds(delta, "stop_reason"@, json::JsonView::Str("stop_sequence"@))
                ==> stop_reason == Some(StopReason::StopSequence)
            &&& !delta.contains_key("stop_reason"@) ==> stop_reason is None
        },
{
    lemma_event_names();
    lemma_stop_names();
}

proof fn lemma_body_members()
    ensures
        "max_tokens"@ != "messages"@,
        "max_tokens"@ != "stream"@,
        "max_tokens"@ != "model"@,
        "max_tokens"@ != "anthropic_version"@,
        "max_tokens"@ != "system"@,
        "max_tokens"@ != "tools"@,
        "max_tokens"@ != "temperature"@,
        "max_tokens"@ != "stop_sequences"@,
        "max_tokens"@ != "thinking"@,
        "messages"@ != "stream"@,
        "messages"@ != "model"@,
        "messages"@ != "anthropic_version"@,
        "messages"@ != "system"@,
        "messages"@ != "tools"@,
        "messages"@ != "temperature"@,
        "messages"@ != "stop_sequences"@,
        "messages"@ != "thinking"@,
        "stream"@ != "model"@,
        "stream"@ != "anthropic_version"@,
        "stream"@ != "system"@,
        "stream"@ != "tools"@,
        "stream"@ != "temperature"@,
        "stream"@ != "stop_sequences"@,
        "stream"@ != "thinking"@,
        "model"@ != "anthropic_version"@,
        "model"@ != "system"@,
        "model"@ != "tools"@,
        "model"@ != "temperature"@,
        "model"@ != "stop_sequences"@,
        "model"@ != "thinking"@,
        "anthropic_version"@ != "system"@,
        "anthropic_version"@ != "tools"@,
        "anthropic_version"@ != "temperature"@,
        "anthropic_version"@ != "stop_sequences"@,
        "anthropic_version"@ != "thinking"@,
        "system"@ != "tools"@,
        "system"@ != "temperature"@,
        "system"@ != "stop_sequences"@,
        "system"@ != "thinking"@,
        "tools"@ != "temperature"@,
        "tools"@ != "stop_sequences"@,
        "tools"@ != "thinking"@,
        "temperature"@ != "stop_sequences"@,
        "temperature"@ != "thinking"@,
        "stop_sequences"@ != "thinking"@,
{
    reveal_strlit("max_tokens");
    reveal_strlit("messages");
    reveal_strlit("stream");
    reveal_strlit("model");
    reveal_strlit("anthropic_version");
    reveal_strlit("system");
    reveal_strlit("tools");
    reveal_strlit("temperature");
    reveal_strlit("stop_sequences");
    reveal_strlit("thinking");
    assert("max_tokens"@.len() == 10);
    assert("messages"@.len() == 8);
    assert("stream"@.len() == 6);
    assert("model"@.len() == 5);
    assert("anthropic_version"@.len() == 17);
    assert("system"@.len() == 6);
    assert("tools"@.len() == 5);
    assert("temperature"@.len() == 11);
    assert("stop_sequences"@.len() == 14);
    assert("thinking"@.len() == 8);
    assert("messages"@[0] != "thinking"@[0]);
    assert("stream"@[1] != "system"@[1]);
    assert("model"@[0] != "tools"@[0]);
}

proof fn lemma_inner_members()
    ensures
        "type"@ != "text"@,
        "type"@ != "cache_control"@,
        "type"@ != "name"@,
        "type"@ != "description"@,
        "type"@ != "input_schema"@,
        "type"@ != "role"@,
        "type"@ != "content"@,
        "type"@ != "budget_tokens"@,
        "text"@ != "cache_control"@,
        "text"@ != "name"@,
        "text"@ != "description"@,
        "text"@ != "input_schema"@,
        "text"@ != "role"@,
        "text"@ != "content"@,
        "text"@ != "budget_tokens"@,
        "cache_control"@ != "name"@,
        "cache_control"@ != "description"@,
        "cache_control"@ != "input_schema"@,
        "cache_control"@ != "role"@,
        "cache_control"@ != "content"@,
        "cache_control"@ != "budget_tokens"@,
        "name"@ != "description"@,
        "name"@ != "input_schema"@,
        "name"@ != "role"@,
        "name"@ != "content"@,
        "name"@ != "budget_tokens"@,
        "description"@ != "input_schema"@,
        "description"@ != "role"@,
        "description"@ != "content"@,
        "description"@ != "budget_tokens"@,
        "input_schema"@ != "role"@,
        "input_schema"@ != "content"@,
        "input_schema"@ != "budget_tokens"@,
        "role"@ != "content"@,
        "role"@ != "budget_tokens"@,
        "content"@ != "budget_tokens"@,
{
    reveal_strlit("type");
    reveal_strlit("text");
    reveal_strlit("cache_control");
    reveal_strlit("name");
    reveal_strlit("description");
    reveal_strlit("input_schema");
    reveal_strlit("role");
    reveal_strlit("content");
    reveal_strlit("budget_tokens");
    assert("type"@.len() == 4);
    assert("text"@.len() == 4);
    assert("cache_control"@.len() == 13);
    assert("name"@.len() == 4);
    assert("description"@.len() == 11);
    assert("input_schema"@.len() == 12);
    assert("role"@.len() == 4);
    assert("content"@.len() == 7);
    assert("budget_tokens"@.len() == 13);
    assert("type"@[1] != "text"@[1]);
    assert("type"@[0] != "name"@[0]);
    assert("type"@[0] != "role"@[0]);
    assert("text"@[0] != "name"@[0]);
    assert("text"@[0] != "role"@[0]);
    assert("cache_control"@[0] != "budget_tokens"@[0]);
    assert("name"@[0] != "role"@[0]);
}

proof fn lemma_messages_are_sent(messages: Seq<types::MessageView>)
    ensures
        ({
            let spoken = messages.filter(|m: types::MessageView| m.role != Role::System);
            &&& messages_json(messages).len() == spoken.len()
            &&& forall|i: int|
                0 <= i < spoken.len() ==> #[trigger] messages_json(messages)[i] == message_json(
                    spoken[i],
                ) && spoken[i].role != Role::System
        }),
    decreases messages.len(),
{
    reveal(Seq::filter);
    if messages.len() > 0 {
        lemma_messages_are_sent(messages.drop_last());
    }
}

/// Every message but those of the system is sent, in its place, by the role that spoke
/// and with what was said: a text as it is, or every block in its place.
pub proof fn conversations_are_sent(
    model: Option<Seq<char>>,
    request: types::RequestView,
    budget: Option<u32>,
    version: Option<Seq<char>>,
)
    ensures
        ({
            let spoken = request.messages.filter(
                |m: types::MessageView| m.role != Role::System,
            );
            let body = body_json(model, request, budget, version);
            &&& body is Object && body->Object_0.contains_key("messages"@)
            &&& body->Object_0["messages"@] matches json::JsonView::Array(sent)
            &&& sent.len() == spoken.len()
            &&& forall|i: int|
                0 <= i < spoken.len() ==> {
                    &&& (#[trigger] sent[i]) is Object
                    &&& json::holds(
                        sent[i]->Object_0,
                        "role"@,
                        json::JsonView::Str(
                            if spoken[i].role == Role::User {
                                "user"@
                            } else {
                                "assistant"@
                            },
                        ),
                    )
                    &&& json::holds(
                        sent[i]->Object_0,
                        "content"@,
                        match spoken[i].content {
                            types::ContentView::Text(t) => json::JsonView::Str(t),
                            types::ContentView::Blocks(b) => json::JsonView::Array(
                                Seq::new(b.len(), |k: int| wire::block_json(b[k])),
                            ),
                        },
                    )
                }
        }),
{
    lemma_body_members();
    lemma_inner_members();
    let spoken = request.messages.filter(|m: types::MessageView| m.role != Role::System);
    lemma_messages_are_sent(request.messages);
    let sent = messages_json(request.messages);
    assert forall|i: int| 0 <= i < spoken.len() implies {
        &&& (#[trigger] sent[i]) is Object
        &&& json::holds(
            sent[i]->Object_0,
            "role"@,
            json::JsonView::Str(
                if spoken[i].role == Role::User {
                    "user"@
                } else {
                    "assistant"@
                },
            ),
        )
        &&& json::holds(
            sent[i]->Object_0,
            "content"@,
            match spoken[i].content {
                types::ContentView::Text(t) => json::JsonView::Str(t),
                types::ContentView::Blocks(b) => json::JsonView::Array(
                    Seq::new(b.len(), |k: int| wire::block_json(b[k])),
                ),
            },
        )
    } by {
        assert(sent[i] == message_json(spoken[i]));
        wire::contents_are_sent(spoken[i].content);
    }
}

/// The body asks what the request asks: of the model that is named, with its limit of
/// tokens and its temperature, as a stream; with the system prompt as it is, every tool
/// by its name, description and schema, and every text to stop at.
pub proof fn the_body_asks_what_is_asked(
    model: Option<Seq<char>>,
    request: types::RequestView,
    budget: Option<u32>,
    version: Option<Seq<char>>,
)
    ensures
        body_json(model, request, budget, version) matches json::JsonView::Object(o) && {
            &&& json::holds(o, "max_tokens"@, json::JsonView::UInt(request.max_tokens as u64))
            &&& json::holds(o, "stream"@, json::JsonView::Bool(true))
            &&& model is Some ==> json::holds(o, "model"@, json::JsonView::Str(model->0))
            &&& model is None ==> !o.contains_key("model"@)
            &&& version is Some ==> json::holds(
                o,
                "anthropic_version"@,
                json::JsonView::Str(version->0),
            )
            &&& version is None ==> !o.contains_key("anthropic_version"@)
            &&& request.temperature is Some ==> json::holds(
                o,
                "temperature"@,
                request.temperature->0,
            )
            &&& request.temperature is None ==> !o.contains_key("temperature"@)
            &&& request.stop_sequences.len() > 0 ==> json::holds(
                o,
                "stop_sequences"@,
                json::JsonView::Array(
                    Seq::new(
                        request.stop_sequences.len(),
                        |i: int| json::JsonView::Str(request.stop_sequences[i]),
                    ),
                ),
            )
            &&& request.system is None ==> !o.contains_key("system"@)
            &&& request.system is Some ==> {
                &&& o.contains_key("system"@) && o["system"@] is Array
                &&& o["system"@]->Array_0.len() == 1 && o["system"@]->Array_0[0] is Object
                &&& json::holds(
                    o["system"@]->Array_0[0]->Object_0,
                    "type"@,
                    json::JsonView::Str("text"@),
                )
                &&& json::holds(
                    o["system"@]->Array_0[0]->Object_0,
                    "text"@,
                    json::JsonView::Str(request.system->0),
                )
            }
            &&& request.tools.len() == 0 ==> !o.contains_key("tools"@)
            &&& request.tools.len() > 0 ==> {
                &&& o.contains_key("tools"@) && o["tools"@] is Array
                &&& o["tools"@]->Array_0.len() == request.tools.len()
                &&& forall|i: int|
                    0 <= i < request.tools.len() ==> {
                        let tool = #[trigger] o["tools"@]->Array_0[i];
                        &&& tool is Object
                        &&& json::holds(
                            tool->Object_0,
                            "name"@,
                            json::JsonView::Str(request.tools[i].name),
                        )
                        &&& json::holds(
                            tool->Object_0,
                            "description"@,
                            json::JsonView::Str(request.tools[i].description),
                        )
                        &&& json::holds(
                            tool->Object_0,
                            "input_schema"@,
                            request.tools[i].input_schema,
                        )
                    }
            }
        },
{
    lemma_body_members();
    lemma_inner_members();
    assert(wire::texts_json(request.stop_sequences) =~= Seq::new(
        request.stop_sequences.len(),
        |i: int| json::JsonView::Str(request.stop_sequences[i]),
    ));
}

/// A budget for thinking is sent as it is; without one, thinking is switched off where
/// the request asks for that, and else left to the model.
pub proof fn thinking_is_asked_for(
    model: Option<Seq<char>>,
    request: types::RequestView,
    budget: Option<u32>,
    version: Option<Seq<char>>,
)
    ensures
        body_json(model, request, budget, version) matches json::JsonView::Object(o) && {
            &&& budget is Some ==> {
                &&& o.contains_key("thinking"@) && o["thinking"@] is Object
                &&& json::holds(
                    o["thinking"@]->Object_0,
                    "type"@,
                    json::JsonView::Str("enabled"@),
                )
                &&& json::holds(
                    o["thinking"@]->Object_0,
                    "budget_tokens"@,
                    json::JsonView::UInt(budget->0 as u64),
                )
            }
            &&& budget is None && json::holds(
                request.options,
                "thinking_disabled"@,
                json::JsonView::Bool(true),
            ) ==> {
                &&& o.contains_key("thinking"@) && o["thinking"@] is Object
                &&& json::holds(
                    o["thinking"@]->Object_0,
                    "type"@,
                    json::JsonView::Str("disabled"@),
                )
            }
            &&& budget is None && !json::holds(
                request.options,
                "thinking_disabled"@,
                json::JsonView::Bool(true),
            ) ==> !o.contains_key("thinking"@)
        },
{
    lemma_body_members();
    lemma_inner_members();
}

/// A request goes to the model that it names, and else to the default one; a budget in
/// its options goes before that of the provider.
pub proof fn requests_go_before_defaults(
    requested: Seq<char>,
    default: Seq<char>,
    options: Map<Seq<char>, json::JsonView>,
    n: u32,
    own: Option<u32>,
)
    ensures
        requested.len() > 0 ==> model_for(requested, default) == requested,
        requested.len() == 0 ==> model_for(requested, default) == default,
        json::holds(options, "thinking_budget"@, json::JsonView::UInt(n as u64)) ==> budget_for(
            options,
            own,
        ) == Some(n),
        !options.contains_key("thinking_budget"@) ==> budget_for(options, own) == own,
{
}

/// A key goes in the header for keys, a token behind the word for bearers.
pub proof fn credentials_go_in_their_headers(key: String, id: String, token: OAuthToken)
    ensures
        auth_header(Auth::ApiKey(key)) == Some(("x-api-key"@, key@)),
        auth_header(Auth::Bearer(key)) == Some(("authorization"@, "Bearer "@ + key@)),
        auth_header(Auth::OAuth { client_id: id, token }) == Some(
            ("authorization"@, "Bearer "@ + token.access_token@),
        ),
{
}

/// A frame of two lines, one with the type of the event and one with its data, is the
/// event of that type with what the data reads as.
pub proof fn frames_are_read_by_their_lines(kind: Seq<char>, data: Seq<char>)
    requires
        !kind.contains('\n') && kind.len() > 0 && text::tight(kind),
        !data.contains('\n') && text::tight(data),
    ensures
        sse_event("event: "@ + kind + seq!['\n'] + "data: "@ + data) == match json::json_read(data) {
            Some(value) => event_of(kind, value),
            None => None,
        },
{
    reveal_strlit("event: ");
    reveal_strlit("data: ");
    let first = "event: "@ + kind;
    let second = "data: "@ + data;
    let raw = "event: "@ + kind + seq!['\n'] + "data: "@ + data;
    assert(raw =~= first + seq!['\n'] + second);
    assert forall|c: char| c == '\n' implies !first.contains(c) && !second.contains(c) by {
        if first.contains(c) {
            let k = choose|k: int| 0 <= k < first.len() && first[k] == c;
            if k >= 7 {
                assert(kind[k - 7] == c);
            }
        }
        if second.contains(c) {
            let k = choose|k: int| 0 <= k < second.len() && second[k] == c;
            if k >= 6 {
                assert(data[k - 6] == c);
            }
        }
    }
    assert(first.last() == kind.last());
    assert(text::white('\r'));
    text::lines_are_split_at_line_feeds(first, second);
    let lines = seq![first, second];
    assert(lines.drop_last() =~= seq![first]);
    assert(seq![first].drop_last() =~= Seq::<Seq<char>>::empty());
    assert("data: "@.is_prefix_of(second));
    assert("event: "@.is_prefix_of(first));
    assert(second[0] == 'd' && "event: "@[0] == 'e');
    assert(second.skip(6) =~= data);
    assert(first.skip(7) =~= kind);
    text::tight_texts_stay(kind);
    text::tight_texts_stay(data);
    reveal_with_fuel(last_field, 3);
}

/// A frame that an empty line closes gives its event at once, and nothing of it waits.
pub proof fn closed_frames_give_their_events(frame: Seq<char>)
    requires
        forall|j: int|
            0 <= j < frame.len() ==> !text::occurs_at("\n\n"@, frame + "\n\n"@, j),
    ensures
        sse_events(framing::frames(frame + "\n\n"@, "\n\n"@)) == match sse_event(frame) {
            Some(e) => seq![e],
            None => Seq::empty(),
        },
        framing::rest(frame + "\n\n"@, "\n\n"@) == Seq::<char>::empty(),
{
    reveal_strlit("\n\n");
    framing::closed_frames_are_given_out(frame, "\n\n"@);
    let one = seq![frame];
    assert(one.drop_last() =~= Seq::<Seq<char>>::empty());
    assert(one.last() == frame);
    assert(sse_events(one.drop_last()) == Seq::<types::EventView>::empty());
    assert(sse_events(one) =~= match sse_event(frame) {
        Some(e) => seq![e],
        None => Seq::empty(),
    });
}

/// A field of a frame is what the last line that begins with its name says, without the
/// name and without white space around it; a field that no line names is empty.
pub proof fn the_last_line_of_a_name_counts(
    lines: Seq<Seq<char>>,
    prefix: Seq<char>,
    i: int,
    rest: Seq<char>,
)
    requires
        -1 <= i < lines.len(),
        i >= 0 ==> lines[i] == prefix + rest,
        forall|j: int| i < j < lines.len() ==> !prefix.is_prefix_of(#[trigger] lines[j]),
    ensures
        i >= 0 ==> last_field(lines, prefix) == text::trimmed(rest),
        i == -1 ==> last_field(lines, prefix).len() == 0,
    decreases lines.len(),
{
    if lines.len() > 0 {
        if i == lines.len() - 1 {
            assert((prefix + rest).subrange(0, prefix.len() as int) =~= prefix);
            assert((prefix + rest).skip(prefix.len() as int) =~= rest);
        } else {
            let before = lines.drop_last();
            assert(!prefix.is_prefix_of(lines[lines.len() - 1]));
            assert forall|j: int| i < j < before.len() implies !prefix.is_prefix_of(
                #[trigger] before[j],
            ) by {
                assert(before[j] == lines[j]);
            }
            the_last_line_of_a_name_counts(before, prefix, i, rest);
        }
    }
}

/// A base address that is configured is used unless it is empty, and a setting that is
/// there is used as it is.
pub proof fn settings_go_before_defaults(configured: String, default: Seq<char>)
    ensures
        configured@.len() > 0 ==> base_or(Some(configured), default) == configured@,
        configured@.len() == 0 ==> base_or(Some(configured), default) == default,
        base_or(None, default) == default,
        setting_or(Some(configured), default) == configured@,
        setting_or(None, default) == default,
{
}

/// The mark that ends a cached prefix is of the ephemeral kind.
pub proof fn marks_are_ephemeral()
    ensures
        ephemeral() is Object,
        json::holds(ephemeral()->Object_0, "type"@, json::JsonView::Str("ephemeral"@)),
{
}

/// An error without a message is an unknown one.
pub proof fn errors_without_a_message_are_unknown(data: json::JsonView)
    requires
        !(data.at("error"@).at("message"@) is Str),
    ensures
        event_of("error"@, data) == Some(
            types::EventView::Error {
                message: "Unknown error"@,
                kind: StreamErrorKind::Provider,
            },
        ),
{
    lemma_event_names();
}

/// A request goes to the messages endpoint, with the version, what it is allowed and its
/// credentials; its body asks the model that the request names, or the default one.
pub proof fn requests_go_to_the_messages_endpoint(
    provider: &Anthropic,
    request: &CompletionRequest,
    credentials: (String, String),
    r: HttpRequest,
)
    requires
        call_ensures(Anthropic::plan, (provider, request, credentials), r),
    ensures
        r.url@ == provider.base_url@ + "/v1/messages"@,
        r.headers@.len() == 4,
        r.headers@[0].0@ == "anthropic-version"@ && r.headers@[0].1@ == "2023-06-01"@,
        r.headers@[1].0@ == "anthropic-beta"@ && r.headers@[1].1@
            == "token-efficient-tools-2025-02-19"@,
        r.headers@[2].0@ == "content-type"@ && r.headers@[2].1@ == "application/json"@,
        r.headers@[3].0@ == credentials.0@ && r.headers@[3].1@ == credentials.1@,
        r.body@ is Object,
        json::holds(
            r.body@->Object_0,
            "model"@,
            json::JsonView::Str(
                if request.model@.len() > 0 {
                    request.model@
                } else {
                    provider.default_model@
                },
            ),
        ),
        json::holds(r.body@->Object_0, "stream"@, json::JsonView::Bool(true)),
        json::holds(
            r.body@->Object_0,
            "max_tokens"@,
            json::JsonView::UInt(request.max_tokens as u64),
        ),
{
    lemma_body_members();
    let h = headers_view(r.headers@);
    assert(h.len() == 4);
    assert(h[0] == header(r.headers@[0]));
    assert(h[1] == header(r.headers@[1]));
    assert(h[2] == header(r.headers@[2]));
    assert(h[3] == header(r.headers@[3]));
}

/// An error of the server says its status and what the server said.
pub proof fn errors_of_the_server_say_their_status(status: u16, body: &str, r: StreamEvent)
    requires
        call_ensures(http_error, (status, body), r),
    ensures
        r@ == (types::EventView::Error {
            message: "HTTP "@ + text::decimal(status as nat) + ": "@ + body@,
            kind: StreamErrorKind::Http { status },
        }),
{
}

/// A piece of a call's input is read from its own member of the delta.
pub proof fn pieces_of_inputs_are_read(
    index: usize,
    delta: &Json,
    members: Map<Seq<char>, json::JsonView>,
    piece: Seq<char>,
    r: Option<StreamEvent>,
)
    requires
        call_ensures(delta_event, (index, Some(delta)), r),
        delta@ == json::JsonView::Object(members),
        json::holds(members, "type"@, json::JsonView::Str("input_json_delta"@)),
        json::holds(members, "partial_json"@, json::JsonView::Str(piece)),
    ensures
        r is Some,
        (r->0)@ == (types::EventView::InputJsonDelta { index, partial_json: piece }),
{
    lemma_delta_names();
    assert(event_view(r) == delta_of(index, delta@));
}

/// A provider from the environment has the key that is set, and the usual address unless
/// another one is; without a key there is none.
pub proof fn providers_have_their_key_and_address(
    key: String,
    default_model: &str,
    with_key: Result<Anthropic, CerseiError>,
    without: Result<Anthropic, CerseiError>,
)
    ensures
        call_ensures(Anthropic::from_env, (Some(key), None, default_model), with_key)
            ==> with_key is Ok && (with_key->Ok_0).auth == Auth::ApiKey(key)
            && (with_key->Ok_0).base_url@ == "https://api.anthropic.com"@
            && (with_key->Ok_0).default_model@ == default_model@,
        call_ensures(Anthropic::from_env, (None, None, default_model), without) ==> without is Err
            && without->Err_0 is Auth,
{
}

} // verus!
